//! The order of files: by their names, character by character, but with runs
//! of digits as the numbers that they are.

use crate::path;
use crate::path::{path_file_name, PathStyle};
use crate::text;
use crate::text::chars_of;
use vstd::prelude::*;
use vstd::string::*;

verus! {

/// What a name is ordered by: for each character its code, and for each run
/// of digits the code of `0` and the number.
pub open spec fn key(s: Seq<char>) -> Seq<(int, nat)>
    decreases s.len(),
{
    if s.len() == 0 {
        Seq::empty()
    } else {
        let front = key(s.drop_last());
        let c = s.last();
        if !text::is_digit(c) {
            front.push((c as int, 0))
        } else if front.len() > 0 && front.last().0 == '0' as int {
            front.drop_last().push(('0' as int, front.last().1 * 10 + text::digit_value(c)))
        } else {
            front.push(('0' as int, text::digit_value(c)))
        }
    }
}

/// Whether one key stands before another.
pub open spec fn before(a: Seq<(int, nat)>, b: Seq<(int, nat)>) -> bool
    decreases a.len(),
{
    if b.len() == 0 {
        false
    } else if a.len() == 0 {
        true
    } else if a[0].0 != b[0].0 {
        a[0].0 < b[0].0
    } else if a[0].1 != b[0].1 {
        a[0].1 < b[0].1
    } else {
        before(a.drop_first(), b.drop_first())
    }
}

/// The name that a file is ordered by.
pub open spec fn name_of(style: PathStyle, p: Seq<char>) -> Seq<char> {
    match path::file_name(style, p) {
        Some(n) => n,
        None => Seq::empty(),
    }
}

/// Whether the file `a` stands before the file `b`.
pub open spec fn file_before(style: PathStyle, a: Seq<char>, b: Seq<char>) -> bool {
    before(key(name_of(style, a)), key(name_of(style, b)))
}

/// The file put into an ordered list, behind all that do not stand after it.
pub open spec fn placed(style: PathStyle, list: Seq<Seq<char>>, p: Seq<char>) -> Seq<Seq<char>>
    decreases list.len(),
{
    if list.len() > 0 && file_before(style, p, list.last()) {
        placed(style, list.drop_last(), p).push(list.last())
    } else {
        list.push(p)
    }
}

/// The files in order; files with the same key keep their order.
pub open spec fn in_order(style: PathStyle, files: Seq<Seq<char>>) -> Seq<Seq<char>>
    decreases files.len(),
{
    if files.len() == 0 {
        Seq::empty()
    } else {
        placed(style, in_order(style, files.drop_last()), files.last())
    }
}

/// A character or a run of digits of a name.
struct Piece {
    code: u32,
    digits: Vec<char>,
}

spec fn piece_view(p: Piece) -> (int, nat) {
    (p.code as int, text::digits_value(p.digits@))
}

spec fn pieces_view(v: Seq<Piece>) -> Seq<(int, nat)> {
    v.map_values(|p: Piece| piece_view(p))
}

spec fn sound(v: Seq<Piece>) -> bool {
    forall|i: int| 0 <= i < v.len() ==> text::all_digits((#[trigger] v[i]).digits@)
}

fn code_of(c: char) -> (r: u32)
    ensures
        r == c as int,
{
    c as u32
}

fn pieces_of(s: &str) -> (r: Vec<Piece>)
    ensures
        pieces_view(r@) == key(s@),
        sound(r@),
{
    let chars = chars_of(s);
    let mut out: Vec<Piece> = Vec::new();
    let mut i: usize = 0;
    assert(pieces_view(out@) =~= key(chars@.take(0)));
    while i < chars.len()
        invariant
            i <= chars.len(),
            pieces_view(out@) == key(chars@.take(i as int)),
            sound(out@),
        decreases chars.len() - i,
    {
        let c = chars[i];
        let ghost old_out = out@;
        let ghost front = key(chars@.take(i as int));
        proof {
            assert(chars@.take(i + 1).drop_last() =~= chars@.take(i as int));
            assert(chars@.take(i + 1).last() == c);
            if out@.len() > 0 {
                assert(front.last() == piece_view(out@.last()));
            }
        }
        if c < '0' || c > '9' {
            out.push(Piece { code: code_of(c), digits: Vec::new() });
            assert(pieces_view(out@) =~= pieces_view(old_out).push((c as int, 0)));
        } else {
            let n: usize = out.len();
            if n > 0 && out[n - 1].code == 48 {
                let mut last = match out.pop() {
                    Some(p) => p,
                    None => Piece { code: 48, digits: Vec::new() },
                };
                let ghost was = last.digits@;
                last.digits.push(c);
                proof {
                    assert(last.digits@.drop_last() =~= was);
                    assert(text::all_digits(last.digits@)) by {
                        assert forall|m: int| 0 <= m < last.digits@.len() implies text::is_digit(
                            #[trigger] last.digits@[m],
                        ) by {
                            if m < was.len() {
                                assert(last.digits@[m] == was[m]);
                            }
                        }
                    }
                }
                let ghost grown = piece_view(last);
                out.push(last);
                proof {
                    assert(pieces_view(out@) =~= pieces_view(old_out).drop_last().push(grown));
                }
            } else {
                let mut digits: Vec<char> = Vec::new();
                digits.push(c);
                proof {
                    assert(digits@.drop_last() =~= Seq::<char>::empty());
                    assert(text::digits_value(Seq::<char>::empty()) == 0);
                    assert(text::digits_value(digits@) == text::digit_value(c));
                }
                out.push(Piece { code: 48, digits });
                assert(pieces_view(out@) =~= pieces_view(old_out).push(
                    ('0' as int, text::digit_value(c)),
                ));
            }
        }
        i += 1;
    }
    assert(chars@.take(chars@.len() as int) =~= s@);
    out
}

#[derive(Clone, Copy, PartialEq, Eq, Structural)]
enum Place {
    Before,
    Level,
    After,
}

spec fn place_of(a: nat, b: nat) -> Place {
    if a < b {
        Place::Before
    } else if a == b {
        Place::Level
    } else {
        Place::After
    }
}

/// The number of the leading `i` digits of a run that is filled up with zeros
/// to `width` digits.
spec fn leading(s: Seq<char>, width: int, i: int) -> nat {
    let k = i - (width - s.len());
    if k <= 0 {
        0
    } else {
        text::digits_value(s.take(k))
    }
}

fn digit_at(s: &Vec<char>, width: usize, i: usize) -> (r: u32)
    requires
        i < width,
        s@.len() <= width,
        text::all_digits(s@),
    ensures
        r <= 9,
        leading(s@, width as int, i + 1) == leading(s@, width as int, i as int) * 10 + r,
{
    let gap: usize = width - s.len();
    if i < gap {
        0
    } else {
        let k: usize = i - gap;
        proof {
            assert(text::is_digit(s@[k as int]));
            assert(s@.take(k + 1).drop_last() =~= s@.take(k as int));
            assert(s@.take(k + 1).last() == s@[k as int]);
            assert(leading(s@, width as int, i as int) == text::digits_value(s@.take(k as int)));
            assert(leading(s@, width as int, i + 1) == text::digits_value(s@.take(k + 1)));
        }
        let c = s[k];
        c as u32 - 48
    }
}

/// Compares two runs of digits by their numbers.
fn place_numbers(a: &Vec<char>, b: &Vec<char>) -> (r: Place)
    requires
        text::all_digits(a@),
        text::all_digits(b@),
    ensures
        r == place_of(text::digits_value(a@), text::digits_value(b@)),
{
    let width: usize = if a.len() < b.len() {
        b.len()
    } else {
        a.len()
    };
    let mut place = Place::Level;
    let mut i: usize = 0;
    while i < width
        invariant
            i <= width,
            a@.len() <= width,
            b@.len() <= width,
            text::all_digits(a@),
            text::all_digits(b@),
            place == place_of(
                leading(a@, width as int, i as int),
                leading(b@, width as int, i as int),
            ),
        decreases width - i,
    {
        let x: u32 = digit_at(a, width, i);
        let y: u32 = digit_at(b, width, i);
        if place == Place::Level {
            if x < y {
                place = Place::Before;
            } else if x > y {
                place = Place::After;
            }
        }
        i += 1;
    }
    proof {
        assert(a@.take(a@.len() as int) =~= a@);
        assert(b@.take(b@.len() as int) =~= b@);
    }
    place
}

/// Whether one name stands before another.
pub fn stands_before(a: &str, b: &str) -> (r: bool)
    ensures
        r == before(key(a@), key(b@)),
{
    let x = pieces_of(a);
    let y = pieces_of(b);
    let ghost p = pieces_view(x@);
    let ghost q = pieces_view(y@);
    let mut i: usize = 0;
    proof {
        assert(p.skip(0) =~= p);
        assert(q.skip(0) =~= q);
    }
    loop
        invariant
            i <= x@.len(),
            i <= y@.len(),
            p == pieces_view(x@),
            q == pieces_view(y@),
            sound(x@),
            sound(y@),
            p == key(a@),
            q == key(b@),
            before(p.skip(i as int), q.skip(i as int)) == before(p, q),
        decreases x@.len() - i,
    {
        if i >= y.len() {
            return false;
        }
        if i >= x.len() {
            return true;
        }
        proof {
            assert(p.skip(i as int)[0] == piece_view(x@[i as int]));
            assert(q.skip(i as int)[0] == piece_view(y@[i as int]));
            assert(p.skip(i as int).drop_first() =~= p.skip(i + 1));
            assert(q.skip(i as int).drop_first() =~= q.skip(i + 1));
        }
        if x[i].code != y[i].code {
            return x[i].code < y[i].code;
        }
        match place_numbers(&x[i].digits, &y[i].digits) {
            Place::Before => {
                return true;
            },
            Place::After => {
                return false;
            },
            Place::Level => {},
        }
        i += 1;
    }
}

fn name_text(style: PathStyle, p: &str) -> (r: String)
    ensures
        r@ == name_of(style, p@),
{
    match path_file_name(style, p) {
        Some(n) => n,
        None => {
            let none = String::new();
            assert(none@ =~= Seq::empty());
            none
        },
    }
}

/// Whether one file stands before another.
pub fn file_stands_before(style: PathStyle, a: &str, b: &str) -> (r: bool)
    ensures
        r == file_before(style, a@, b@),
{
    let x = name_text(style, a);
    let y = name_text(style, b);
    stands_before(x.as_str(), y.as_str())
}

proof fn lemma_placed_skips(style: PathStyle, list: Seq<Seq<char>>, p: Seq<char>, k: int)
    requires
        0 <= k <= list.len(),
        forall|i: int| k <= i < list.len() ==> file_before(style, p, #[trigger] list[i]),
        k > 0 ==> !file_before(style, p, list[k - 1]),
    ensures
        placed(style, list, p) == list.insert(k, p),
    decreases list.len(),
{
    if k == list.len() {
        assert(list.insert(k, p) =~= list.push(p));
    } else {
        assert(file_before(style, p, list.last()));
        let front = list.drop_last();
        assert forall|i: int| k <= i < front.len() implies file_before(
            style,
            p,
            #[trigger] front[i],
        ) by {
            assert(front[i] == list[i]);
        }
        lemma_placed_skips(style, front, p, k);
        assert(front.insert(k, p).push(list.last()) =~= list.insert(k, p));
    }
}

/// Puts the files in order.
pub fn order_files(style: PathStyle, files: Vec<String>) -> (r: Vec<String>)
    ensures
        text::texts(r@) == in_order(style, text::texts(files@)),
{
    let ghost all = text::texts(files@);
    let mut out: Vec<String> = Vec::new();
    let mut i: usize = 0;
    assert(text::texts(out@) =~= in_order(style, all.take(0)));
    while i < files.len()
        invariant
            i <= files@.len(),
            all == text::texts(files@),
            text::texts(out@) == in_order(style, all.take(i as int)),
        decreases files.len() - i,
    {
        let p = files[i].clone();
        let ghost list = text::texts(out@);
        let mut k: usize = out.len();
        while k > 0 && file_stands_before(style, p.as_str(), out[k - 1].as_str())
            invariant
                k <= out@.len(),
                list == text::texts(out@),
                forall|j: int| k <= j < list.len() ==> file_before(style, p@, #[trigger] list[j]),
            decreases k,
        {
            assert(list[k - 1] == out@[k - 1]@);
            k -= 1;
        }
        proof {
            if k > 0 {
                assert(list[k - 1] == out@[k - 1]@);
            }
            lemma_placed_skips(style, list, p@, k as int);
            assert(all.take(i + 1).drop_last() =~= all.take(i as int));
            assert(all.take(i + 1).last() == p@);
        }
        let ghost was = out@;
        out.insert(k, p);
        assert(text::texts(out@) =~= list.insert(k as int, p@));
        i += 1;
    }
    assert(all.take(files@.len() as int) =~= all);
    out
}

proof fn lemma_before_chain(a: Seq<(int, nat)>, b: Seq<(int, nat)>, c: Seq<(int, nat)>)
    ensures
        !before(b, a) && !before(c, b) ==> !before(c, a),
        before(a, b) ==> !before(b, a),
    decreases a.len(),
{
    if a.len() > 0 && b.len() > 0 && c.len() > 0 {
        lemma_before_chain(a.drop_first(), b.drop_first(), c.drop_first());
    }
    if a.len() > 0 && b.len() > 0 {
        lemma_before_chain(a.drop_first(), b.drop_first(), b.drop_first());
    }
}

/// Whether no file of a list stands before one that comes earlier.
pub open spec fn ordered(style: PathStyle, list: Seq<Seq<char>>) -> bool {
    forall|i: int, j: int| 0 <= i < j < list.len() ==> !file_before(style, list[j], list[i])
}

proof fn lemma_placed_ordered(style: PathStyle, list: Seq<Seq<char>>, p: Seq<char>)
    requires
        ordered(style, list),
    ensures
        ordered(style, placed(style, list, p)),
        placed(style, list, p).len() == list.len() + 1,
        placed(style, list, p).to_multiset() == list.to_multiset().insert(p),
        forall|i: int|
            0 <= i < placed(style, list, p).len() ==> list.contains(
                #[trigger] placed(style, list, p)[i],
            ) || placed(style, list, p)[i] == p,
    decreases list.len(),
{
    broadcast use vstd::seq_lib::group_to_multiset_ensures;

    let out = placed(style, list, p);
    if list.len() > 0 && file_before(style, p, list.last()) {
        let front = list.drop_last();
        let last = list.last();
        lemma_placed_ordered(style, front, p);
        let inner = placed(style, front, p);
        assert forall|i: int| 0 <= i < inner.len() implies !file_before(
            style,
            last,
            #[trigger] inner[i],
        ) by {
            if inner[i] == p {
                lemma_before_chain(
                    key(name_of(style, p)),
                    key(name_of(style, last)),
                    key(name_of(style, last)),
                );
            } else {
                assert(front.contains(inner[i]));
                let m = choose|m: int| 0 <= m < front.len() && front[m] == inner[i];
                assert(!file_before(style, list[list.len() - 1], list[m]));
            }
        }
        assert forall|i: int, j: int| 0 <= i < j < out.len() implies !file_before(
            style,
            out[j],
            out[i],
        ) by {
            if j < inner.len() {
                assert(!file_before(style, inner[j], inner[i]));
            } else {
                assert(!file_before(style, last, inner[i]));
            }
        }
        assert(list =~= front.push(last));
        assert forall|i: int| 0 <= i < out.len() implies list.contains(#[trigger] out[i]) || out[i]
            == p by {
            if i < inner.len() {
                if inner[i] != p {
                    assert(front.contains(inner[i]));
                    let m = choose|m: int| 0 <= m < front.len() && front[m] == inner[i];
                    assert(list[m] == out[i]);
                }
            } else {
                assert(list[list.len() - 1] == out[i]);
            }
        }
    } else {
        assert forall|i: int, j: int| 0 <= i < j < out.len() implies !file_before(
            style,
            out[j],
            out[i],
        ) by {
            if j == list.len() {
                if i < list.len() - 1 {
                    assert(!file_before(style, list[list.len() - 1], list[i]));
                    lemma_before_chain(
                        key(name_of(style, list[i])),
                        key(name_of(style, list.last())),
                        key(name_of(style, p)),
                    );
                }
            }
        }
        assert forall|i: int| 0 <= i < out.len() implies list.contains(#[trigger] out[i]) || out[i]
            == p by {
            if i < list.len() {
                assert(list[i] == out[i]);
            }
        }
    }
}

/// Ordering loses no file and adds none, and no file stands before one that
/// comes earlier.
pub proof fn law_files_in_order(style: PathStyle, files: Seq<Seq<char>>)
    ensures
        ordered(style, in_order(style, files)),
        in_order(style, files).to_multiset() == files.to_multiset(),
        in_order(style, files).len() == files.len(),
    decreases files.len(),
{
    broadcast use vstd::seq_lib::group_to_multiset_ensures;

    if files.len() > 0 {
        law_files_in_order(style, files.drop_last());
        lemma_placed_ordered(style, in_order(style, files.drop_last()), files.last());
        assert(files =~= files.drop_last().push(files.last()));
    }
}

proof fn lemma_key_ends_in_number(s: Seq<char>)
    ensures
        key(s).len() > 0 <==> s.len() > 0,
        s.len() > 0 ==> (key(s).last().0 == '0' as int <==> text::is_digit(s.last())),
    decreases s.len(),
{
    if s.len() > 0 {
        lemma_key_ends_in_number(s.drop_last());
    }
}

proof fn lemma_key_of_number(prefix: Seq<char>, digits: Seq<char>)
    requires
        digits.len() > 0,
        text::all_digits(digits),
        prefix.len() == 0 || !text::is_digit(prefix.last()),
    ensures
        key(prefix + digits) == key(prefix).push(('0' as int, text::digits_value(digits))),
    decreases digits.len(),
{
    let s = prefix + digits;
    assert(s.drop_last() =~= prefix + digits.drop_last());
    assert(text::is_digit(digits[digits.len() - 1]));
    if digits.len() == 1 {
        assert(s.drop_last() =~= prefix);
        lemma_key_ends_in_number(prefix);
        assert(digits.drop_last() =~= Seq::<char>::empty());
    } else {
        assert(text::all_digits(digits.drop_last())) by {
            assert forall|i: int| 0 <= i < digits.drop_last().len() implies text::is_digit(
                #[trigger] digits.drop_last()[i],
            ) by {
                assert(digits.drop_last()[i] == digits[i]);
            }
        }
        lemma_key_of_number(prefix, digits.drop_last());
        assert(key(prefix).push(
            ('0' as int, text::digits_value(digits.drop_last())),
        ).drop_last() =~= key(prefix));
    }
}

proof fn lemma_key_continues(s: Seq<char>, rest: Seq<char>)
    requires
        s.len() > 0,
        rest.len() == 0 || !text::is_digit(rest.first()),
    ensures
        s.len() <= (s + rest).len(),
        key(s).len() <= key(s + rest).len(),
        key(s + rest).take(key(s).len() as int) == key(s),
        rest.len() > 0 ==> key(s).len() < key(s + rest).len(),
    decreases rest.len(),
{
    if rest.len() == 0 {
        assert(s + rest =~= s);
        assert(key(s).take(key(s).len() as int) =~= key(s));
    } else {
        assert((s + rest).drop_last() =~= s + rest.drop_last());
        if rest.len() > 1 {
            assert(rest.drop_last().first() == rest.first());
        }
        lemma_key_continues(s, rest.drop_last());
        let front = key(s + rest.drop_last());
        let n = key(s).len() as int;
        lemma_key_ends_in_number(s + rest.drop_last());
        if rest.len() == 1 {
            assert(rest.drop_last() =~= Seq::<char>::empty());
            assert(s + rest.drop_last() =~= s);
            assert(rest.last() == rest.first());
            assert(key(s + rest) =~= front.push((rest.last() as int, 0)));
        }
        assert(key(s + rest).take(n) =~= front.take(n));
    }
}

proof fn lemma_before_at(a: Seq<(int, nat)>, b: Seq<(int, nat)>, n: int)
    requires
        0 <= n < a.len(),
        n < b.len(),
        forall|i: int| 0 <= i < n ==> a[i] == b[i],
        a[n].0 == b[n].0,
        a[n].1 < b[n].1,
    ensures
        before(a, b),
    decreases n,
{
    if n > 0 {
        assert(a[0] == b[0]);
        lemma_before_at(a.drop_first(), b.drop_first(), n - 1);
    }
}

/// Numbers in names sort numerically: where two names are alike up to a
/// number, the name with the smaller number stands first, whatever follows.
pub proof fn law_numbers_sort_numerically(
    prefix: Seq<char>,
    a: Seq<char>,
    rest_a: Seq<char>,
    b: Seq<char>,
    rest_b: Seq<char>,
)
    requires
        prefix.len() == 0 || !text::is_digit(prefix.last()),
        a.len() > 0 && text::all_digits(a),
        b.len() > 0 && text::all_digits(b),
        rest_a.len() == 0 || !text::is_digit(rest_a.first()),
        rest_b.len() == 0 || !text::is_digit(rest_b.first()),
        text::digits_value(a) < text::digits_value(b),
    ensures
        before(key(prefix + a + rest_a), key(prefix + b + rest_b)),
{
    lemma_key_of_number(prefix, a);
    lemma_key_of_number(prefix, b);
    lemma_key_continues(prefix + a, rest_a);
    lemma_key_continues(prefix + b, rest_b);
    let x = key(prefix + a + rest_a);
    let y = key(prefix + b + rest_b);
    let n = key(prefix).len() as int;
    let ka = key(prefix + a);
    let kb = key(prefix + b);
    assert forall|i: int| 0 <= i <= n implies #[trigger] x[i] == ka[i] && y[i] == kb[i] by {
        assert(x.take(n + 1)[i] == ka[i]);
        assert(y.take(n + 1)[i] == kb[i]);
    }
    assert(x[n] == ka[n]);
    lemma_before_at(x, y, n);
}

/// Characters sort by their codes: where two names are alike up to a character that
/// is no digit in either, the one with the lower code stands first, whatever follows.
pub proof fn law_characters_sort_by_code(
    prefix: Seq<char>,
    a: char,
    rest_a: Seq<char>,
    b: char,
    rest_b: Seq<char>,
)
    requires
        !text::is_digit(a) && !text::is_digit(b),
        a < b,
    ensures
        before(key(prefix.push(a) + rest_a), key(prefix.push(b) + rest_b)),
        !before(key(prefix.push(b) + rest_b), key(prefix.push(a) + rest_a)),
{
    lemma_key_behind(prefix, a, rest_a);
    lemma_key_behind(prefix, b, rest_b);
    let x = key(prefix.push(a) + rest_a);
    let y = key(prefix.push(b) + rest_b);
    let n = key(prefix).len() as int;
    assert(x[n] == x.take(n + 1)[n]);
    assert(y[n] == y.take(n + 1)[n]);
    assert forall|i: int| 0 <= i < n implies x[i] == y[i] by {
        assert(x.take(n + 1)[i] == key(prefix)[i]);
        assert(y.take(n + 1)[i] == key(prefix)[i]);
    }
    lemma_before_code(x, y, n);
}

proof fn lemma_key_behind(prefix: Seq<char>, c: char, rest: Seq<char>)
    requires
        !text::is_digit(c),
    ensures
        key(prefix).len() < key(prefix.push(c) + rest).len(),
        key(prefix.push(c) + rest).take(key(prefix).len() as int + 1) == key(prefix).push(
            (c as int, 0),
        ),
    decreases rest.len(),
{
    let s = prefix.push(c) + rest;
    let n = key(prefix).len() as int;
    assert(prefix.push(c).drop_last() =~= prefix);
    assert(key(prefix.push(c)) == key(prefix).push((c as int, 0nat)));
    if rest.len() == 0 {
        assert(s =~= prefix.push(c));
        assert(key(s).take(n + 1) =~= key(s));
    } else {
        assert(s.drop_last() =~= prefix.push(c) + rest.drop_last());
        lemma_key_behind(prefix, c, rest.drop_last());
        let front = key(s.drop_last());
        if text::is_digit(rest.last()) && front.last().0 == '0' as int {
            assert(front[n] == front.take(n + 1)[n]);
            assert(front[n].0 == c as int);
            assert(front.len() > n + 1);
        }
        assert(key(s).take(n + 1) =~= front.take(n + 1));
    }
}

proof fn lemma_before_code(a: Seq<(int, nat)>, b: Seq<(int, nat)>, n: int)
    requires
        0 <= n < a.len(),
        n < b.len(),
        forall|i: int| 0 <= i < n ==> a[i] == b[i],
        a[n].0 < b[n].0,
    ensures
        before(a, b),
        !before(b, a),
    decreases n,
{
    if n > 0 {
        assert(a[0] == b[0]);
        lemma_before_code(a.drop_first(), b.drop_first(), n - 1);
    }
}

/// A name stands before every longer one that starts with it, unless the longer one
/// goes on with a digit behind a digit. No name stands before itself.
pub proof fn law_shorter_names_stand_first(a: Seq<char>, rest: Seq<char>)
    requires
        rest.len() > 0,
        !text::is_digit(rest.first()),
    ensures
        before(key(a), key(a + rest)),
        !before(key(a), key(a)),
{
    let tail = rest.drop_first();
    assert(a + rest =~= a.push(rest.first()) + tail);
    lemma_key_behind(a, rest.first(), tail);
    let x = key(a);
    let y = key(a + rest);
    let n = x.len() as int;
    assert forall|i: int| 0 <= i < n implies x[i] == y[i] by {
        assert(y.take(n + 1)[i] == x[i]);
    }
    lemma_before_prefix(x, y);
    lemma_before_self(x);
}

proof fn lemma_before_prefix(a: Seq<(int, nat)>, b: Seq<(int, nat)>)
    requires
        a.len() < b.len(),
        forall|i: int| 0 <= i < a.len() ==> a[i] == b[i],
    ensures
        before(a, b),
    decreases a.len(),
{
    if a.len() > 0 {
        assert(a[0] == b[0]);
        lemma_before_prefix(a.drop_first(), b.drop_first());
    }
}

proof fn lemma_before_self(a: Seq<(int, nat)>)
    ensures
        !before(a, a),
    decreases a.len(),
{
    if a.len() > 0 {
        lemma_before_self(a.drop_first());
    }
}

/// Files are ordered by their names, wherever they lie.
pub proof fn law_files_go_by_name(style: PathStyle, a: Seq<char>, b: Seq<char>)
    requires
        path::file_name(style, a) is Some,
        path::file_name(style, b) is Some,
    ensures
        file_before(style, a, b) == before(
            key(path::file_name(style, a)->0),
            key(path::file_name(style, b)->0),
        ),
{
}

/// A number stands where its digits stand among the characters: before what comes
/// behind `9`, and behind what comes before `0`.
pub proof fn law_numbers_stand_among_characters(
    prefix: Seq<char>,
    digits: Seq<char>,
    rest_a: Seq<char>,
    c: char,
    rest_b: Seq<char>,
)
    requires
        prefix.len() == 0 || !text::is_digit(prefix.last()),
        digits.len() > 0 && text::all_digits(digits),
        rest_a.len() == 0 || !text::is_digit(rest_a.first()),
        !text::is_digit(c),
    ensures
        c > '9' ==> before(key(prefix + digits + rest_a), key(prefix.push(c) + rest_b)),
        c < '0' ==> before(key(prefix.push(c) + rest_b), key(prefix + digits + rest_a)),
{
    lemma_key_of_number(prefix, digits);
    lemma_key_continues(prefix + digits, rest_a);
    lemma_key_behind(prefix, c, rest_b);
    let x = key(prefix + digits + rest_a);
    let y = key(prefix.push(c) + rest_b);
    let k = key(prefix + digits);
    let n = key(prefix).len() as int;
    assert(x[n] == x.take(n + 1)[n]);
    assert(k[n] == ('0' as int, text::digits_value(digits)));
    assert(y[n] == y.take(n + 1)[n]);
    assert forall|i: int| 0 <= i < n implies x[i] == y[i] by {
        assert(x.take(n + 1)[i] == k[i]);
        assert(k[i] == key(prefix)[i]);
        assert(y.take(n + 1)[i] == key(prefix)[i]);
    }
    if c > '9' {
        lemma_before_code(x, y, n);
    } else {
        lemma_before_code(y, x, n);
    }
}

}
