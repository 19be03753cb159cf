//! File paths as text, written as on Unix or as on Windows. On Unix `/` stands
//! between the components. On Windows `\` and `/` do, and a path can start with
//! a prefix: a drive as in `C:`, a share as in `\\server\share`, a device as in
//! `\\.\COM42`, or one of the verbatim prefixes that start with `\\?\`, behind
//! which only `\` separates. Repeated separators and components `.` do not
//! count, but for a `.` at the very start and behind a verbatim prefix.

use crate::text;
use crate::text::{chars_of, lower_text, same_text, split_text, text_of};
use vstd::prelude::*;
use vstd::string::*;

verus! {

/// How paths are written.
#[derive(Clone, Copy, Debug, PartialEq, Eq, Structural)]
pub enum PathStyle {
    Unix,
    Windows,
}

/// What a path on Windows starts with.
#[derive(Clone, Copy, Debug, PartialEq, Eq, Structural)]
pub enum Prefix {
    Missing,
    /// `C:`
    Disk,
    /// `\\server\share`
    Share,
    /// `\\.\COM42`
    Device,
    /// `\\?\pictures`
    Verbatim,
    /// `\\?\C:`
    VerbatimDisk,
    /// `\\?\UNC\server\share`
    VerbatimShare,
}

/// Which characters separate the components of a path.
#[derive(Clone, Copy, Debug, PartialEq, Eq, Structural)]
pub enum Separators {
    Slash,
    Backslash,
    Both,
}

pub open spec fn separates(k: Separators, c: char) -> bool {
    match k {
        Separators::Slash => c == '/',
        Separators::Backslash => c == '\\',
        Separators::Both => c == '/' || c == '\\',
    }
}

/// Whether a character separates in a path without a verbatim prefix.
pub open spec fn is_separator(style: PathStyle, c: char) -> bool {
    c == '/' || (style == PathStyle::Windows && c == '\\')
}

/// Where the next separator at or behind `from` stands; the end where there is
/// none.
pub open spec fn next_separator(s: Seq<char>, from: int, k: Separators) -> int
    decreases s.len() - from,
{
    if from >= s.len() {
        s.len() as int
    } else if separates(k, s[from]) {
        from
    } else {
        next_separator(s, from + 1, k)
    }
}

pub open spec fn is_letter(c: char) -> bool {
    'a' <= c <= 'z' || 'A' <= c <= 'Z'
}

pub open spec fn two_separators(s: Seq<char>) -> bool {
    s.len() >= 2 && separates(Separators::Both, s[0]) && separates(Separators::Both, s[1])
}

/// Whether a path starts with `\\?\`, written with these very characters.
pub open spec fn starts_verbatim(s: Seq<char>) -> bool {
    s.len() >= 4 && s[0] == '\\' && s[1] == '\\' && s[2] == '?' && s[3] == '\\'
}

/// The prefix behind `\\?\`, and where it ends.
pub open spec fn verbatim_prefix(s: Seq<char>) -> (Prefix, nat) {
    if s.len() >= 8 && s[4] == 'U' && s[5] == 'N' && s[6] == 'C' && separates(
        Separators::Both,
        s[7],
    ) {
        let server = next_separator(s, 8, Separators::Backslash);
        let share = next_separator(s, server + 1, Separators::Backslash);
        (Prefix::VerbatimShare, (if share > server + 1 { share } else { server }) as nat)
    } else if s.len() >= 6 && is_letter(s[4]) && s[5] == ':' && (s.len() == 6 || separates(
        Separators::Both,
        s[6],
    )) {
        (Prefix::VerbatimDisk, 6)
    } else {
        (Prefix::Verbatim, next_separator(s, 4, Separators::Backslash) as nat)
    }
}

/// The prefix of a path on Windows, and where it ends.
pub open spec fn windows_prefix(s: Seq<char>) -> (Prefix, nat) {
    if starts_verbatim(s) {
        verbatim_prefix(s)
    } else if two_separators(s) && s.len() >= 4 && s[2] == '.' && separates(
        Separators::Both,
        s[3],
    ) {
        (Prefix::Device, next_separator(s, 4, Separators::Both) as nat)
    } else if two_separators(s) {
        let server = next_separator(s, 2, Separators::Both);
        let share = next_separator(s, server + 1, Separators::Both);
        if server > 2 && share > server + 1 {
            (Prefix::Share, share as nat)
        } else {
            (Prefix::Missing, 0)
        }
    } else if s.len() >= 2 && is_letter(s[0]) && s[1] == ':' {
        (Prefix::Disk, 2)
    } else {
        (Prefix::Missing, 0)
    }
}

/// The prefix of a path, and where it ends.
pub open spec fn prefix_of(style: PathStyle, s: Seq<char>) -> (Prefix, nat) {
    match style {
        PathStyle::Unix => (Prefix::Missing, 0),
        PathStyle::Windows => windows_prefix(s),
    }
}

pub open spec fn is_verbatim(p: Prefix) -> bool {
    p == Prefix::Verbatim || p == Prefix::VerbatimDisk || p == Prefix::VerbatimShare
}

/// Whether a prefix stands for an absolute path by itself.
pub open spec fn implies_root(p: Prefix) -> bool {
    p != Prefix::Missing && p != Prefix::Disk
}

/// What separates the components of a path.
pub open spec fn separators_of(style: PathStyle, p: Prefix) -> Separators {
    match style {
        PathStyle::Unix => Separators::Slash,
        PathStyle::Windows => if is_verbatim(p) {
            Separators::Backslash
        } else {
            Separators::Both
        },
    }
}

/// What stands before the components of a path.
pub struct Head {
    pub prefix: Prefix,
    /// Where the prefix ends.
    pub prefix_end: nat,
    /// Whether a separator follows the prefix.
    pub root: bool,
    /// Whether a `.` stands at the start, with nothing that makes the path
    /// absolute.
    pub current: bool,
}

pub open spec fn head_of(style: PathStyle, s: Seq<char>) -> Head {
    let (prefix, end) = prefix_of(style, s);
    let root = s.len() > end && is_separator(style, s[end as int]);
    Head {
        prefix,
        prefix_end: end,
        root,
        current: !root && !implies_root(prefix) && s.len() > end && s[end as int] == '.' && (s.len()
            == end + 1 || is_separator(style, s[end as int + 1])),
    }
}

impl Head {
    /// Where the components behind the head start.
    pub open spec fn len(self) -> nat {
        self.prefix_end + (if self.root || self.current {
            1nat
        } else {
            0
        })
    }
}

pub open spec fn head_len(style: PathStyle, s: Seq<char>) -> nat {
    head_of(style, s).len()
}

pub open spec fn separators_in(style: PathStyle, s: Seq<char>) -> Separators {
    separators_of(style, head_of(style, s).prefix)
}

/// Whether a path does not depend on a directory that it is looked up in.
pub open spec fn is_absolute(style: PathStyle, s: Seq<char>) -> bool {
    let head = head_of(style, s);
    match style {
        PathStyle::Unix => head.root,
        PathStyle::Windows => implies_root(head.prefix) || (head.prefix == Prefix::Disk
            && head.root),
    }
}

/// The text with one and the same separator everywhere.
pub open spec fn unified(k: Separators, s: Seq<char>) -> Seq<char> {
    s.map_values(|c: char| if k == Separators::Both && c == '\\' { '/' } else { c })
}

/// A prefix in the one form that all ways of writing it have in common: a small
/// letter for a drive, and the same separators.
pub open spec fn plain_prefix(p: Prefix, s: Seq<char>) -> Seq<char> {
    match p {
        Prefix::Disk => text::ascii_lower(s),
        Prefix::VerbatimDisk => text::ascii_lower(s),
        Prefix::VerbatimShare => s.update(7, '\\'),
        Prefix::Share => unified(Separators::Both, s),
        Prefix::Device => unified(Separators::Both, s),
        _ => s,
    }
}

/// The root as a component.
pub open spec fn root_text(style: PathStyle) -> Seq<char> {
    match style {
        PathStyle::Unix => seq!['/'],
        PathStyle::Windows => seq!['\\'],
    }
}

/// The head of a path as components: its prefix, the root, or a `.` at the
/// start, whichever there are.
pub open spec fn head_parts(style: PathStyle, s: Seq<char>) -> Seq<Seq<char>> {
    let head = head_of(style, s);
    let first = if head.prefix == Prefix::Missing {
        Seq::<Seq<char>>::empty()
    } else {
        seq![plain_prefix(head.prefix, s.take(head.prefix_end as int))]
    };
    if head.root || (implies_root(head.prefix) && !is_verbatim(head.prefix)) {
        first.push(root_text(style))
    } else if head.current && head.prefix == Prefix::Missing {
        first.push(seq!['.'])
    } else {
        first
    }
}

/// Whether a piece between two separators counts as a component.
pub open spec fn counts(k: Separators, piece: Seq<char>) -> bool {
    piece.len() > 0 && (k == Separators::Backslash || piece != seq!['.'])
}

pub open spec fn separator_char(k: Separators) -> char {
    if k == Separators::Backslash {
        '\\'
    } else {
        '/'
    }
}

/// The pieces between separators that count.
pub open spec fn counting(k: Separators, s: Seq<char>) -> Seq<Seq<char>> {
    text::split(unified(k, s), separator_char(k)).filter(|p: Seq<char>| counts(k, p))
}

/// The components of a path behind its head.
pub open spec fn body(style: PathStyle, s: Seq<char>) -> Seq<Seq<char>> {
    counting(separators_in(style, s), s.skip(head_len(style, s) as int))
}

/// The components of a path: first its head, where there is one.
pub open spec fn components(style: PathStyle, s: Seq<char>) -> Seq<Seq<char>> {
    head_parts(style, s) + body(style, s)
}

/// Whether a component names a file or directory.
pub open spec fn is_name(c: Seq<char>) -> bool {
    c != seq!['.'] && c != seq!['.', '.']
}

/// The last component, where it is a name.
pub open spec fn file_name(style: PathStyle, s: Seq<char>) -> Option<Seq<char>> {
    let c = body(style, s);
    if c.len() > 0 && is_name(c.last()) {
        Some(c.last())
    } else {
        None
    }
}

/// Where the last dot stands, zero where there is none.
pub open spec fn last_dot(s: Seq<char>) -> nat
    decreases s.len(),
{
    if s.len() == 0 {
        0
    } else if s.last() == '.' {
        (s.len() - 1) as nat
    } else {
        last_dot(s.drop_last())
    }
}

/// The file name without its extension. A dot at the start is no extension.
pub open spec fn file_stem(style: PathStyle, s: Seq<char>) -> Option<Seq<char>> {
    match file_name(style, s) {
        Some(name) => Some(
            if last_dot(name) > 0 {
                name.take(last_dot(name) as int)
            } else {
                name
            },
        ),
        None => None,
    }
}

/// What stands behind the last dot of the file name.
pub open spec fn extension(style: PathStyle, s: Seq<char>) -> Option<Seq<char>> {
    match file_name(style, s) {
        Some(name) => if last_dot(name) > 0 {
            Some(name.skip(last_dot(name) as int + 1))
        } else {
            None
        },
        None => None,
    }
}

/// Whether what ends the path behind its head does not count: a separator,
/// or a component `.` that does not.
pub open spec fn idle_end(k: Separators, s: Seq<char>, head: nat) -> bool {
    &&& s.len() > head
    &&& separates(k, s.last()) || (k != Separators::Backslash && s.last() == '.' && (s.len() - 1
        == head || separates(k, s[s.len() - 2])))
}

/// The path without what does not count at its end.
pub open spec fn trim_end(k: Separators, s: Seq<char>, head: nat) -> Seq<char>
    decreases s.len(),
{
    if idle_end(k, s, head) {
        trim_end(k, s.drop_last(), head)
    } else {
        s
    }
}

/// The path up to its last separator, or to its head.
pub open spec fn cut_component(k: Separators, s: Seq<char>, head: nat) -> Seq<char>
    decreases s.len(),
{
    if s.len() > head && !separates(k, s.last()) {
        cut_component(k, s.drop_last(), head)
    } else {
        s
    }
}

/// The path without its last component; nothing for a root, a prefix and an
/// empty path.
pub open spec fn parent(style: PathStyle, s: Seq<char>) -> Option<Seq<char>> {
    let head = head_of(style, s);
    let k = separators_of(style, head.prefix);
    let t = trim_end(k, s, head.len());
    if t.len() > head.len() {
        Some(trim_end(k, cut_component(k, t, head.len()), head.len()))
    } else if head.current && head.prefix == Prefix::Missing {
        Some(Seq::empty())
    } else {
        None
    }
}

/// One more component behind those of a verbatim path, in which `.` and `..`
/// mean nothing, so they are resolved.
pub open spec fn resolved(parts: Seq<Seq<char>>, c: Seq<char>) -> Seq<Seq<char>> {
    if c == root_text(PathStyle::Windows) {
        seq![c]
    } else if c == seq!['.'] {
        parts
    } else if c == seq!['.', '.'] {
        if parts.len() > 0 && is_name(parts.last()) && parts.last() != root_text(
            PathStyle::Windows,
        ) {
            parts.drop_last()
        } else {
            parts
        }
    } else {
        parts.push(c)
    }
}

/// The first `n` of some components, one behind the other, behind those of a
/// verbatim path.
pub open spec fn resolved_all(parts: Seq<Seq<char>>, more: Seq<Seq<char>>, n: nat) -> Seq<Seq<char>>
    decreases n,
{
    if n == 0 {
        parts
    } else {
        resolved(resolved_all(parts, more, (n - 1) as nat), more[n - 1])
    }
}

/// The text of the first `n` components behind a verbatim prefix.
pub open spec fn written(prefix: Seq<char>, parts: Seq<Seq<char>>, n: nat) -> Seq<char>
    decreases n,
{
    if n == 0 {
        prefix
    } else {
        let front = written(prefix, parts, (n - 1) as nat);
        let root = root_text(PathStyle::Windows);
        if parts[n - 1] == root || (n >= 2 && parts[n - 2] == root) {
            front + parts[n - 1]
        } else {
            front.push('\\') + parts[n - 1]
        }
    }
}

/// A path behind a verbatim one.
pub open spec fn joined_verbatim(dir: Seq<char>, p: Seq<char>) -> Seq<char> {
    let end = head_of(PathStyle::Windows, dir).prefix_end as int;
    let parts = components(PathStyle::Windows, dir).drop_first();
    let more = components(PathStyle::Windows, p);
    let all = resolved_all(parts, more, more.len());
    written(dir.take(end), all, all.len())
}

/// The separator that is put between a directory and a name.
pub open spec fn main_separator(style: PathStyle) -> char {
    match style {
        PathStyle::Unix => '/',
        PathStyle::Windows => '\\',
    }
}

/// A path inside a directory. An absolute path, or one with a prefix, stays as
/// it is; one with a root only keeps the prefix of the directory.
pub open spec fn joined(style: PathStyle, dir: Seq<char>, p: Seq<char>) -> Seq<char> {
    let head = head_of(style, dir);
    let other = head_of(style, p);
    if is_absolute(style, p) || other.prefix != Prefix::Missing {
        p
    } else if is_verbatim(head.prefix) && p.len() > 0 {
        joined_verbatim(dir, p)
    } else if other.root {
        dir.take(head.prefix_end as int) + p
    } else if dir.len() > 0 && !is_separator(style, dir.last()) && !(head.prefix == Prefix::Disk
        && dir.len() == 2) {
        dir.push(main_separator(style)) + p
    } else {
        dir + p
    }
}

/// The path with another file name.
pub open spec fn renamed(style: PathStyle, s: Seq<char>, name: Seq<char>) -> Seq<char> {
    match file_name(style, s) {
        Some(_) => match parent(style, s) {
            Some(dir) => joined(style, dir, name),
            None => joined(style, s, name),
        },
        None => joined(style, s, name),
    }
}

/// Whether two paths have the same components.
pub open spec fn same_path(style: PathStyle, a: Seq<char>, b: Seq<char>) -> bool {
    components(style, a) == components(style, b)
}

/// Whether two directories are the same, or both are missing.
pub open spec fn same_parent(
    style: PathStyle,
    a: Option<Seq<char>>,
    b: Option<Seq<char>>,
) -> bool {
    match (a, b) {
        (Some(x), Some(y)) => same_path(style, x, y),
        (None, None) => true,
        _ => false,
    }
}

fn separating(k: Separators, c: char) -> (r: bool)
    ensures
        r == separates(k, c),
{
    match k {
        Separators::Slash => c == '/',
        Separators::Backslash => c == '\\',
        Separators::Both => c == '/' || c == '\\',
    }
}

fn a_separator(style: PathStyle, c: char) -> (r: bool)
    ensures
        r == is_separator(style, c),
{
    c == '/' || (style == PathStyle::Windows && c == '\\')
}

fn a_letter(c: char) -> (r: bool)
    ensures
        r == is_letter(c),
{
    ('a' <= c && c <= 'z') || ('A' <= c && c <= 'Z')
}

fn verbatim(p: Prefix) -> (r: bool)
    ensures
        r == is_verbatim(p),
{
    p == Prefix::Verbatim || p == Prefix::VerbatimDisk || p == Prefix::VerbatimShare
}

fn rooted(p: Prefix) -> (r: bool)
    ensures
        r == implies_root(p),
{
    p != Prefix::Missing && p != Prefix::Disk
}

fn separators_for(style: PathStyle, p: Prefix) -> (r: Separators)
    ensures
        r == separators_of(style, p),
{
    match style {
        PathStyle::Unix => Separators::Slash,
        PathStyle::Windows => if verbatim(p) {
            Separators::Backslash
        } else {
            Separators::Both
        },
    }
}

proof fn lemma_next_separator(s: Seq<char>, from: int, k: Separators)
    requires
        0 <= from,
    ensures
        next_separator(s, from, k) <= s.len(),
        from <= s.len() ==> from <= next_separator(s, from, k),
        forall|i: int|
            from <= i < next_separator(s, from, k) ==> !separates(k, #[trigger] s[i]),
        next_separator(s, from, k) < s.len() ==> separates(k, s[next_separator(s, from, k)]),
    decreases s.len() - from,
{
    if from < s.len() && !separates(k, s[from]) {
        lemma_next_separator(s, from + 1, k);
    }
}

fn find_separator(chars: &Vec<char>, from: usize, k: Separators) -> (r: usize)
    ensures
        r == next_separator(chars@, from as int, k),
        r <= chars.len(),
        from <= chars.len() ==> from <= r,
{
    let n: usize = chars.len();
    if from >= n {
        return n;
    }
    let mut i: usize = from;
    while i < n && !separating(k, chars[i])
        invariant
            from <= i <= n == chars.len(),
            next_separator(chars@, i as int, k) == next_separator(chars@, from as int, k),
        decreases n - i,
    {
        i += 1;
    }
    i
}

/// Where the piece behind a separator ends.
fn find_after(chars: &Vec<char>, at: usize, k: Separators) -> (r: usize)
    requires
        at <= chars.len(),
    ensures
        r == next_separator(chars@, at + 1, k),
        at <= r <= chars.len(),
{
    if at < chars.len() {
        find_separator(chars, at + 1, k)
    } else {
        chars.len()
    }
}

fn find_prefix(style: PathStyle, chars: &Vec<char>) -> (r: (Prefix, usize))
    ensures
        (r.0, r.1 as nat) == prefix_of(style, chars@),
        r.1 <= chars.len(),
{
    let n: usize = chars.len();
    if style == PathStyle::Unix {
        return (Prefix::Missing, 0);
    }
    let both = Separators::Both;
    let back = Separators::Backslash;
    if n >= 4 && chars[0] == '\\' && chars[1] == '\\' && chars[2] == '?' && chars[3] == '\\' {
        if n >= 8 && chars[4] == 'U' && chars[5] == 'N' && chars[6] == 'C' && separating(
            both,
            chars[7],
        ) {
            let server: usize = find_separator(chars, 8, back);
            let share: usize = find_after(chars, server, back);
            let end: usize = if share > server && share - server > 1 {
                share
            } else {
                server
            };
            (Prefix::VerbatimShare, end)
        } else if n >= 6 && a_letter(chars[4]) && chars[5] == ':' && (n == 6 || separating(
            both,
            chars[6],
        )) {
            (Prefix::VerbatimDisk, 6)
        } else {
            (Prefix::Verbatim, find_separator(chars, 4, back))
        }
    } else if n >= 2 && separating(both, chars[0]) && separating(both, chars[1]) {
        if n >= 4 && chars[2] == '.' && separating(both, chars[3]) {
            return (Prefix::Device, find_separator(chars, 4, both));
        }
        let server: usize = find_separator(chars, 2, both);
        let share: usize = find_after(chars, server, both);
        if server > 2 && share > server && share - server > 1 {
            (Prefix::Share, share)
        } else {
            (Prefix::Missing, 0)
        }
    } else if n >= 2 && a_letter(chars[0]) && chars[1] == ':' {
        (Prefix::Disk, 2)
    } else {
        (Prefix::Missing, 0)
    }
}

/// What stands before the components of a path.
struct Start {
    prefix: Prefix,
    prefix_end: usize,
    root: bool,
    current: bool,
    /// Where the components start.
    len: usize,
}

impl Start {
    spec fn head(self) -> Head {
        Head {
            prefix: self.prefix,
            prefix_end: self.prefix_end as nat,
            root: self.root,
            current: self.current,
        }
    }
}

fn start_of(style: PathStyle, chars: &Vec<char>) -> (r: Start)
    ensures
        r.head() == head_of(style, chars@),
        r.len == head_len(style, chars@),
        r.prefix_end <= r.len <= chars.len(),
{
    let (prefix, end) = find_prefix(style, chars);
    let n: usize = chars.len();
    let root = n > end && a_separator(style, chars[end]);
    let current = !root && !rooted(prefix) && n > end && chars[end] == '.' && (n - end == 1
        || a_separator(style, chars[end + 1]));
    let len: usize = if root || current {
        end + 1
    } else {
        end
    };
    Start { prefix, prefix_end: end, root, current, len }
}

pub fn absolute(style: PathStyle, s: &str) -> (r: bool)
    ensures
        r == is_absolute(style, s@),
{
    let chars = chars_of(s);
    let start = start_of(style, &chars);
    match style {
        PathStyle::Unix => start.root,
        PathStyle::Windows => rooted(start.prefix) || (start.prefix == Prefix::Disk && start.root),
    }
}

fn unified_text(k: Separators, chars: &Vec<char>, from: usize, to: usize) -> (r: String)
    requires
        from <= to <= chars.len(),
    ensures
        r@ == unified(k, chars@.subrange(from as int, to as int)),
{
    let mut out = String::new();
    let mut i: usize = from;
    assert(out@ =~= unified(k, chars@.subrange(from as int, from as int)));
    while i < to
        invariant
            from <= i <= to <= chars.len(),
            out@ == unified(k, chars@.subrange(from as int, i as int)),
        decreases to - i,
    {
        let c = chars[i];
        if k == Separators::Both && c == '\\' {
            out.push('/');
        } else {
            out.push(c);
        }
        i += 1;
        assert(out@ =~= unified(k, chars@.subrange(from as int, i as int)));
    }
    out
}

fn plain_prefix_text(p: Prefix, chars: &Vec<char>, end: usize) -> (r: String)
    requires
        end <= chars.len(),
        p == Prefix::VerbatimShare ==> end >= 8,
    ensures
        r@ == plain_prefix(p, chars@.take(end as int)),
{
    assert(chars@.take(end as int) == chars@.subrange(0, end as int));
    match p {
        Prefix::Disk => lower_text(text_of(chars, 0, end).as_str()),
        Prefix::VerbatimDisk => lower_text(text_of(chars, 0, end).as_str()),
        Prefix::VerbatimShare => {
            let mut out = text_of(chars, 0, 7);
            out.push('\\');
            out.append(text_of(chars, 8, end).as_str());
            assert(out@ =~= plain_prefix(p, chars@.take(end as int)));
            out
        },
        Prefix::Share => unified_text(Separators::Both, chars, 0, end),
        Prefix::Device => unified_text(Separators::Both, chars, 0, end),
        _ => text_of(chars, 0, end),
    }
}

fn one_char(c: char) -> (r: String)
    ensures
        r@ == seq![c],
{
    let mut out = String::new();
    out.push(c);
    assert(out@ =~= seq![c]);
    out
}

fn head_texts(style: PathStyle, chars: &Vec<char>) -> (r: Vec<String>)
    ensures
        text::texts(r@) == head_parts(style, chars@),
{
    let start = start_of(style, chars);
    let mut out: Vec<String> = Vec::new();
    assert(text::texts(out@) =~= Seq::<Seq<char>>::empty());
    proof {
        lemma_next_separator(chars@, 8, Separators::Backslash);
    }
    if start.prefix != Prefix::Missing {
        out.push(plain_prefix_text(start.prefix, chars, start.prefix_end));
    }
    let ghost first = text::texts(out@);
    assert(first =~= if start.prefix == Prefix::Missing {
        Seq::<Seq<char>>::empty()
    } else {
        seq![plain_prefix(start.prefix, chars@.take(start.prefix_end as int))]
    });
    if start.root || (rooted(start.prefix) && !verbatim(start.prefix)) {
        let root = match style {
            PathStyle::Unix => '/',
            PathStyle::Windows => '\\',
        };
        out.push(one_char(root));
        assert(text::texts(out@) =~= first.push(seq![root]));
    } else if start.current && start.prefix == Prefix::Missing {
        out.push(one_char('.'));
        assert(text::texts(out@) =~= first.push(seq!['.']));
    }
    out
}

proof fn lemma_filter_step(k: Separators, v: Seq<Seq<char>>, i: int)
    requires
        0 <= i < v.len(),
    ensures
        v.take(i + 1).filter(|p: Seq<char>| counts(k, p)) == if counts(k, v[i]) {
            v.take(i).filter(|p: Seq<char>| counts(k, p)).push(v[i])
        } else {
            v.take(i).filter(|p: Seq<char>| counts(k, p))
        },
{
    reveal(Seq::filter);
    assert(v.take(i + 1).drop_last() == v.take(i));
    assert(v.take(i + 1).last() == v[i]);
}

fn body_texts(style: PathStyle, chars: &Vec<char>) -> (r: Vec<String>)
    ensures
        text::texts(r@) == body(style, chars@),
{
    let start = start_of(style, chars);
    let k = separators_for(style, start.prefix);
    let rest = unified_text(k, chars, start.len, chars.len());
    assert(chars@.subrange(start.len as int, chars@.len() as int) =~= chars@.skip(
        start.len as int,
    ));
    let sep = if k == Separators::Backslash {
        '\\'
    } else {
        '/'
    };
    let pieces = split_text(rest.as_str(), sep);
    let ghost p = text::texts(pieces@);
    let n: usize = pieces.len();
    let mut out: Vec<String> = Vec::new();
    let mut i: usize = 0;
    proof {
        reveal(Seq::filter);
        assert(p.take(0) =~= Seq::empty());
        assert(text::texts(out@) =~= p.take(0).filter(|p: Seq<char>| counts(k, p)));
    }
    while i < n
        invariant
            i <= n == pieces.len(),
            p == text::texts(pieces@),
            text::texts(out@) == p.take(i as int).filter(|p: Seq<char>| counts(k, p)),
        decreases n - i,
    {
        let piece = &pieces[i];
        let ghost before = out@;
        assert(p[i as int] == piece@);
        proof {
            lemma_filter_step(k, p, i as int);
            reveal_strlit(".");
            assert("."@ =~= seq!['.']);
        }
        if piece.as_str().unicode_len() > 0 && (k == Separators::Backslash || !same_text(
            piece.as_str(),
            ".",
        )) {
            out.push(piece.clone());
            assert(text::texts(out@) =~= text::texts(before).push(piece@));
        }
        i += 1;
    }
    assert(p.take(n as int) =~= p);
    out
}

/// The components of a path.
pub fn path_components(style: PathStyle, s: &str) -> (r: Vec<String>)
    ensures
        text::texts(r@) == components(style, s@),
{
    let chars = chars_of(s);
    let mut out = head_texts(style, &chars);
    let mut rest = body_texts(style, &chars);
    let ghost a = out@;
    let ghost b = rest@;
    out.append(&mut rest);
    assert(text::texts(a + b) =~= text::texts(a) + text::texts(b));
    out
}

fn names_something(c: &str) -> (r: bool)
    ensures
        r == is_name(c@),
{
    proof {
        reveal_strlit(".");
        reveal_strlit("..");
        assert("."@ =~= seq!['.']);
        assert(".."@ =~= seq!['.', '.']);
    }
    !same_text(c, ".") && !same_text(c, "..")
}

pub fn path_file_name(style: PathStyle, s: &str) -> (r: Option<String>)
    ensures
        text::opt_text(r) == file_name(style, s@),
{
    let chars = chars_of(s);
    let parts = body_texts(style, &chars);
    let n: usize = parts.len();
    if n == 0 {
        return None;
    }
    assert(text::texts(parts@).last() == parts@.last()@);
    let last = &parts[n - 1];
    if names_something(last.as_str()) {
        Some(last.clone())
    } else {
        None
    }
}

fn dot_of(chars: &Vec<char>) -> (r: usize)
    ensures
        r == last_dot(chars@),
        r > 0 ==> r < chars.len(),
{
    let mut i: usize = chars.len();
    assert(chars@.take(i as int) == chars@);
    while i > 0
        invariant
            i <= chars.len(),
            last_dot(chars@.take(i as int)) == last_dot(chars@),
        decreases i,
    {
        assert(chars@.take(i as int).last() == chars@[i - 1]);
        assert(chars@.take(i as int).drop_last() == chars@.take(i - 1));
        if chars[i - 1] == '.' {
            return i - 1;
        }
        i -= 1;
    }
    0
}

pub fn path_file_stem(style: PathStyle, s: &str) -> (r: Option<String>)
    ensures
        text::opt_text(r) == file_stem(style, s@),
{
    match path_file_name(style, s) {
        Some(name) => {
            let chars = chars_of(name.as_str());
            let dot: usize = dot_of(&chars);
            if dot > 0 {
                let stem = text_of(&chars, 0, dot);
                assert(stem@ =~= name@.take(dot as int));
                Some(stem)
            } else {
                Some(name)
            }
        },
        None => None,
    }
}

pub fn path_extension(style: PathStyle, s: &str) -> (r: Option<String>)
    ensures
        text::opt_text(r) == extension(style, s@),
{
    match path_file_name(style, s) {
        Some(name) => {
            let chars = chars_of(name.as_str());
            let dot: usize = dot_of(&chars);
            if dot > 0 {
                let ext = text_of(&chars, dot + 1, chars.len());
                assert(ext@ =~= name@.skip(dot + 1));
                Some(ext)
            } else {
                None
            }
        },
        None => None,
    }
}

fn end_of(k: Separators, chars: &Vec<char>, from: usize, head: usize) -> (r: usize)
    requires
        head <= from <= chars.len(),
    ensures
        head <= r <= from,
        chars@.take(r as int) == trim_end(k, chars@.take(from as int), head as nat),
{
    let mut i: usize = from;
    while i > head && (separating(k, chars[i - 1]) || (k != Separators::Backslash && chars[i - 1]
        == '.' && (i - 1 == head || separating(k, chars[i - 2]))))
        invariant
            head <= i <= from <= chars.len(),
            trim_end(k, chars@.take(i as int), head as nat) == trim_end(
                k,
                chars@.take(from as int),
                head as nat,
            ),
        decreases i,
    {
        assert(chars@.take(i as int).last() == chars@[i - 1]);
        assert(chars@.take(i as int).drop_last() == chars@.take(i - 1));
        i -= 1;
    }
    proof {
        let t = chars@.take(i as int);
        if i > head {
            assert(t.last() == chars@[i - 1]);
        }
        assert(!idle_end(k, t, head as nat));
    }
    i
}

fn cut_of(k: Separators, chars: &Vec<char>, from: usize, head: usize) -> (r: usize)
    requires
        head <= from <= chars.len(),
    ensures
        head <= r <= from,
        chars@.take(r as int) == cut_component(k, chars@.take(from as int), head as nat),
{
    let mut i: usize = from;
    while i > head && !separating(k, chars[i - 1])
        invariant
            head <= i <= from <= chars.len(),
            cut_component(k, chars@.take(i as int), head as nat) == cut_component(
                k,
                chars@.take(from as int),
                head as nat,
            ),
        decreases i,
    {
        assert(chars@.take(i as int).last() == chars@[i - 1]);
        assert(chars@.take(i as int).drop_last() == chars@.take(i - 1));
        i -= 1;
    }
    proof {
        if i > head {
            assert(chars@.take(i as int).last() == chars@[i - 1]);
        }
    }
    i
}

pub fn path_parent(style: PathStyle, s: &str) -> (r: Option<String>)
    ensures
        text::opt_text(r) == parent(style, s@),
{
    let chars = chars_of(s);
    let start = start_of(style, &chars);
    let head: usize = start.len;
    let k = separators_for(style, start.prefix);
    let end: usize = end_of(k, &chars, chars.len(), head);
    assert(chars@.take(chars@.len() as int) == s@);
    if end > head {
        let cut: usize = cut_of(k, &chars, end, head);
        let keep: usize = end_of(k, &chars, cut, head);
        let dir = text_of(&chars, 0, keep);
        assert(dir@ == chars@.take(keep as int));
        Some(dir)
    } else if start.current && start.prefix == Prefix::Missing {
        Some(String::new())
    } else {
        None
    }
}

fn is_root(c: &str) -> (r: bool)
    ensures
        r == (c@ == root_text(PathStyle::Windows)),
{
    proof {
        reveal_strlit("\\");
        assert("\\"@ =~= seq!['\\']);
    }
    same_text(c, "\\")
}

fn resolve(parts: &mut Vec<String>, c: &String)
    ensures
        text::texts(final(parts)@) == resolved(text::texts(old(parts)@), c@),
{
    let ghost before = text::texts(parts@);
    proof {
        reveal_strlit(".");
        reveal_strlit("..");
        assert("."@ =~= seq!['.']);
        assert(".."@ =~= seq!['.', '.']);
        assert('.' != '\\');
        assert(seq!['.'][0] == '.' && seq!['\\'][0] == '\\' && seq!['.', '.'].len() == 2);
    }
    if is_root(c.as_str()) {
        parts.clear();
        parts.push(c.clone());
        assert(text::texts(parts@) =~= seq![c@]);
    } else if same_text(c.as_str(), ".") {
    } else if same_text(c.as_str(), "..") {
        let n: usize = parts.len();
        if n > 0 {
            assert(before.last() == parts@.last()@);
            if names_something(parts[n - 1].as_str()) && !is_root(parts[n - 1].as_str()) {
                parts.pop();
                assert(text::texts(parts@) =~= before.drop_last());
            }
        }
    } else {
        parts.push(c.clone());
        assert(text::texts(parts@) =~= before.push(c@));
    }
}

fn join_verbatim(dir: &str, p: &str) -> (r: String)
    requires
        is_verbatim(head_of(PathStyle::Windows, dir@).prefix),
    ensures
        r@ == joined_verbatim(dir@, p@),
{
    let style = PathStyle::Windows;
    let chars = chars_of(dir);
    let start = start_of(style, &chars);
    let mut parts = path_components(style, dir);
    assert(text::texts(parts@).len() == parts@.len());
    assert(components(style, dir@)[0] == head_parts(style, dir@)[0]);
    let ghost whole = parts@;
    parts.remove(0);
    assert(text::texts(parts@) =~= text::texts(whole).drop_first());
    let ghost given = text::texts(parts@);
    let more = path_components(style, p);
    let ghost m = text::texts(more@);
    let mut i: usize = 0;
    while i < more.len()
        invariant
            i <= more.len(),
            m == text::texts(more@),
            text::texts(parts@) == resolved_all(given, m, i as nat),
        decreases more.len() - i,
    {
        resolve(&mut parts, &more[i]);
        assert(m[i as int] == more@[i as int]@);
        i += 1;
    }
    let ghost all = text::texts(parts@);
    let mut out = text_of(&chars, 0, start.prefix_end);
    let ghost prefix = dir@.take(start.prefix_end as int);
    assert(out@ =~= prefix);
    let mut j: usize = 0;
    while j < parts.len()
        invariant
            j <= parts.len(),
            all == text::texts(parts@),
            out@ == written(prefix, all, j as nat),
        decreases parts.len() - j,
    {
        assert(all[j as int] == parts@[j as int]@);
        let mut glued = is_root(parts[j].as_str());
        if j > 0 {
            assert(all[j - 1] == parts@[j - 1]@);
            glued = glued || is_root(parts[j - 1].as_str());
        }
        if !glued {
            out.push('\\');
        }
        out.append(parts[j].as_str());
        j += 1;
    }
    assert(m.len() == more@.len());
    assert(all.len() == parts@.len());
    out
}

/// A path inside a directory.
pub fn join_path(style: PathStyle, dir: &str, p: &str) -> (r: String)
    ensures
        r@ == joined(style, dir@, p@),
{
    let inner = chars_of(p);
    let other = start_of(style, &inner);
    if absolute(style, p) || other.prefix != Prefix::Missing {
        return String::from_str(p);
    }
    let chars = chars_of(dir);
    let start = start_of(style, &chars);
    let n: usize = chars.len();
    if verbatim(start.prefix) && inner.len() > 0 {
        return join_verbatim(dir, p);
    }
    if other.root {
        let mut out = text_of(&chars, 0, start.prefix_end);
        assert(out@ =~= dir@.take(start.prefix_end as int));
        out.append(p);
        return out;
    }
    let mut out = String::from_str(dir);
    if n > 0 && !a_separator(style, chars[n - 1]) && !(start.prefix == Prefix::Disk && n == 2) {
        match style {
            PathStyle::Unix => out.push('/'),
            PathStyle::Windows => out.push('\\'),
        }
    }
    out.append(p);
    out
}

/// The path with another file name.
pub fn rename_path(style: PathStyle, s: &str, name: &str) -> (r: String)
    ensures
        r@ == renamed(style, s@, name@),
{
    match path_file_name(style, s) {
        Some(_) => match path_parent(style, s) {
            Some(dir) => join_path(style, dir.as_str(), name),
            None => join_path(style, s, name),
        },
        None => join_path(style, s, name),
    }
}

/// Whether two paths have the same components.
pub fn equal_paths(style: PathStyle, a: &str, b: &str) -> (r: bool)
    ensures
        r == same_path(style, a@, b@),
{
    let x = path_components(style, a);
    let y = path_components(style, b);
    let n: usize = x.len();
    if n != y.len() {
        assert(text::texts(x@).len() != text::texts(y@).len());
        return false;
    }
    let mut i: usize = 0;
    while i < n
        invariant
            i <= n == x.len() == y.len(),
            text::texts(x@) == components(style, a@),
            text::texts(y@) == components(style, b@),
            forall|k: int| 0 <= k < i ==> text::texts(x@)[k] == text::texts(y@)[k],
        decreases n - i,
    {
        assert(text::texts(x@)[i as int] == x@[i as int]@);
        assert(text::texts(y@)[i as int] == y@[i as int]@);
        if !same_text(x[i].as_str(), y[i].as_str()) {
            return false;
        }
        i += 1;
    }
    assert(text::texts(x@) =~= text::texts(y@));
    true
}

/// Whether two directories are the same, or both are missing.
pub fn equal_parents(style: PathStyle, a: &Option<String>, b: &Option<String>) -> (r: bool)
    ensures
        r == same_parent(style, text::opt_text(*a), text::opt_text(*b)),
{
    match (a, b) {
        (Some(x), Some(y)) => equal_paths(style, x.as_str(), y.as_str()),
        (None, None) => true,
        _ => false,
    }
}

pub proof fn lemma_dot_fits(s: Seq<char>)
    ensures
        last_dot(s) <= s.len(),
    decreases s.len(),
{
    if s.len() > 0 {
        lemma_dot_fits(s.drop_last());
    }
}

proof fn lemma_unified_add(k: Separators, a: Seq<char>, b: Seq<char>)
    ensures
        unified(k, a + b) == unified(k, a) + unified(k, b),
{
    assert(unified(k, a + b) =~= unified(k, a) + unified(k, b));
}

proof fn lemma_counting_one(k: Separators, name: Seq<char>)
    requires
        forall|i: int| 0 <= i < name.len() ==> !separates(k, #[trigger] name[i]),
    ensures
        counts(k, name) ==> counting(k, name) == seq![name],
        !counts(k, name) ==> counting(k, name) == Seq::<Seq<char>>::empty(),
{
    assert(unified(k, name) =~= name);
    assert(!name.contains(separator_char(k)));
    text::lemma_split_one(name, separator_char(k));
    reveal(Seq::filter);
    let one = seq![name];
    assert(one.drop_last() =~= Seq::<Seq<char>>::empty());
    let keep = |p: Seq<char>| counts(k, p);
    assert(one.drop_last().filter(keep) =~= Seq::<Seq<char>>::empty());
    assert(counts(k, name) ==> one.filter(keep) =~= seq![name]);
}

proof fn lemma_counting_join(k: Separators, a: Seq<char>, c: char, b: Seq<char>)
    requires
        separates(k, c),
    ensures
        counting(k, a.push(c) + b) == counting(k, a) + counting(k, b),
{
    let sep = separator_char(k);
    lemma_unified_add(k, a.push(c), b);
    assert(unified(k, a.push(c)) =~= unified(k, a).push(sep));
    text::lemma_split_join(unified(k, a), unified(k, b), sep);
    Seq::filter_distributes_over_add(
        text::split(unified(k, a), sep),
        text::split(unified(k, b), sep),
        |p: Seq<char>| counts(k, p),
    );
}

proof fn lemma_counting_empty(k: Separators)
    ensures
        counting(k, Seq::<char>::empty()) == Seq::<Seq<char>>::empty(),
{
    lemma_counting_one(k, Seq::<char>::empty());
}

proof fn lemma_next_take(s: Seq<char>, from: int, k: Separators, n: int)
    requires
        0 <= from,
        0 <= n <= s.len(),
    ensures
        next_separator(s.take(n), from, k) == if next_separator(s, from, k) < n {
            next_separator(s, from, k)
        } else {
            n
        },
    decreases s.len() - from,
{
    lemma_next_separator(s, from, k);
    if from < n && !separates(k, s[from]) {
        lemma_next_take(s, from + 1, k, n);
    }
}

/// What stands behind the prefix does not change the prefix.
proof fn lemma_prefix_take(s: Seq<char>, n: int)
    requires
        windows_prefix(s).1 <= n <= s.len(),
    ensures
        windows_prefix(s.take(n)) == windows_prefix(s),
{
    let t = s.take(n);
    let back = Separators::Backslash;
    let both = Separators::Both;
    if starts_verbatim(s) {
        lemma_next_separator(s, 4, back);
        lemma_next_separator(s, 8, back);
        lemma_next_take(s, 4, back, n);
        lemma_next_take(s, 8, back, n);
        let server = next_separator(s, 8, back);
        lemma_next_separator(s, server + 1, back);
        lemma_next_take(s, server + 1, back, n);
        assert(n >= 4);
        assert(starts_verbatim(t));
    } else if two_separators(s) {
        lemma_next_separator(s, 2, both);
        lemma_next_separator(s, 4, both);
        lemma_next_take(s, 2, both, n);
        lemma_next_take(s, 4, both, n);
        let server = next_separator(s, 2, both);
        lemma_next_separator(s, server + 1, both);
        lemma_next_take(s, server + 1, both, n);
        assert(!starts_verbatim(t));
    }
}

/// Whether two paths start alike.
pub open spec fn same_head(style: PathStyle, s: Seq<char>, t: Seq<char>) -> bool {
    let head = head_of(style, s);
    &&& head_of(style, t) == head
    &&& s.take(head.prefix_end as int) == t.take(head.prefix_end as int)
}

proof fn lemma_prefix_fits(style: PathStyle, s: Seq<char>)
    ensures
        prefix_of(style, s).1 <= s.len(),
        head_len(style, s) <= s.len(),
{
    lemma_next_separator(s, 2, Separators::Both);
    lemma_next_separator(s, 4, Separators::Both);
    lemma_next_separator(s, 4, Separators::Backslash);
    lemma_next_separator(s, 8, Separators::Backslash);
    lemma_next_separator(s, next_separator(s, 2, Separators::Both) + 1, Separators::Both);
    lemma_next_separator(s, next_separator(s, 8, Separators::Backslash) + 1, Separators::Backslash);
}

/// A path that is cut behind its head, at a separator, keeps its head.
proof fn lemma_head_take(style: PathStyle, s: Seq<char>, n: int)
    requires
        head_len(style, s) <= n <= s.len(),
        n == s.len() || n == head_len(style, s) || separates(separators_in(style, s), s[n])
            || separates(separators_in(style, s), s[n - 1]),
    ensures
        same_head(style, s.take(n), s),
{
    let t = s.take(n);
    let head = head_of(style, s);
    if style == PathStyle::Windows {
        lemma_prefix_take(s, n);
    }
    assert(t.take(head.prefix_end as int) =~= s.take(head.prefix_end as int));
    assert(prefix_of(style, t) == prefix_of(style, s));
    let other = head_of(style, t);
    assert(other.root == head.root);
    assert(other.current == head.current);
}

/// A name behind a path that ends with its head or in a separator.
proof fn lemma_components_behind(style: PathStyle, dir: Seq<char>, name: Seq<char>)
    requires
        same_head(style, dir + name, dir),
        ({
            let k = separators_in(style, dir);
            &&& counts(k, name)
            &&& forall|i: int| 0 <= i < name.len() ==> !separates(k, #[trigger] name[i])
            &&& dir.len() == head_len(style, dir) || separates(k, dir.last())
        }),
    ensures
        body(style, dir + name) == body(style, dir).push(name),
        components(style, dir + name) == components(style, dir).push(name),
{
    let s = dir + name;
    let h = head_len(style, dir) as int;
    let k = separators_in(style, dir);
    lemma_prefix_fits(style, dir);
    lemma_counting_one(k, name);
    lemma_counting_empty(k);
    if dir.len() == h {
        assert(dir.skip(h) =~= Seq::<char>::empty());
        assert(s.skip(h) =~= name);
    } else {
        let e = dir.drop_last().skip(h);
        let c = dir.last();
        lemma_counting_join(k, e, c, name);
        lemma_counting_join(k, e, c, Seq::<char>::empty());
        assert(s.skip(h) =~= e.push(c) + name);
        assert(dir.skip(h) =~= e.push(c) + Seq::<char>::empty());
    }
    assert(body(style, s) =~= body(style, dir).push(name));
    assert(components(style, s) =~= components(style, dir).push(name));
}

/// A separator behind a path changes nothing.
proof fn lemma_components_slash(style: PathStyle, dir: Seq<char>, c: char)
    requires
        same_head(style, dir.push(c), dir),
        separates(separators_in(style, dir), c),
    ensures
        body(style, dir.push(c)) == body(style, dir),
        components(style, dir.push(c)) == components(style, dir),
{
    let h = head_len(style, dir) as int;
    let k = separators_in(style, dir);
    lemma_prefix_fits(style, dir);
    lemma_counting_empty(k);
    lemma_counting_join(k, dir.skip(h), c, Seq::<char>::empty());
    assert(dir.push(c).skip(h) =~= dir.skip(h).push(c) + Seq::<char>::empty());
    assert(body(style, dir.push(c)) =~= body(style, dir));
}

/// Whether a text can be a component of a path by itself: it holds no
/// separator, does not start with a prefix, and is not `.`.
pub open spec fn is_component(style: PathStyle, name: Seq<char>) -> bool {
    &&& name.len() > 0
    &&& name != seq!['.']
    &&& forall|i: int| 0 <= i < name.len() ==> !is_separator(style, #[trigger] name[i])
    &&& prefix_of(style, name).0 == Prefix::Missing
}

/// Whether a name in a directory stands behind the components of the directory.
/// On Unix it always does. On Windows it does not where it would become part of
/// a prefix: `\\server` and `share` are joined to `\\server\share`. Behind a
/// verbatim prefix a root has to follow, and `..` leads back.
pub open spec fn holds_name(style: PathStyle, dir: Seq<char>, name: Seq<char>) -> bool {
    style == PathStyle::Windows ==> {
        &&& is_component(style, name)
        &&& same_head(style, joined(style, dir, name), dir)
        &&& is_verbatim(head_of(style, dir).prefix) ==> head_of(style, dir).root && is_name(name)
    }
}

proof fn lemma_unix_holds(dir: Seq<char>, name: Seq<char>)
    requires
        is_component(PathStyle::Unix, name),
    ensures
        same_head(PathStyle::Unix, joined(PathStyle::Unix, dir, name), dir),
{
    let s = joined(PathStyle::Unix, dir, name);
    assert(!is_separator(PathStyle::Unix, name[0]));
    assert(s.take(0) =~= dir.take(0));
    if dir.len() == 0 {
        assert(s =~= name);
        assert(name.len() == 1 ==> name =~= seq![name[0]]);
        if name.len() > 1 {
            assert(!is_separator(PathStyle::Unix, name[1]));
        }
    } else {
        assert(s[0] == dir[0]);
        if dir.len() > 1 {
            assert(s[1] == dir[1]);
        }
    }
}

/// Whether a text holds no separator.
pub open spec fn unparted(k: Separators, piece: Seq<char>) -> bool {
    forall|i: int| 0 <= i < piece.len() ==> !separates(k, #[trigger] piece[i])
}

proof fn lemma_pieces_unparted(s: Seq<char>)
    ensures
        forall|i: int|
            0 <= i < text::split(s, '\\').len() ==> unparted(
                Separators::Backslash,
                #[trigger] text::split(s, '\\')[i],
            ),
    decreases s.len(),
{
    if s.len() > 0 {
        lemma_pieces_unparted(s.drop_last());
        text::lemma_split_nonempty(s.drop_last(), '\\');
        let front = text::split(s.drop_last(), '\\');
        assert(unparted(Separators::Backslash, front.last()));
    }
}

proof fn lemma_kept_unparted(k: Separators, v: Seq<Seq<char>>)
    requires
        forall|i: int| 0 <= i < v.len() ==> unparted(k, #[trigger] v[i]),
    ensures
        ({
            let kept = v.filter(|p: Seq<char>| counts(k, p));
            forall|i: int|
                0 <= i < kept.len() ==> counts(k, #[trigger] kept[i]) && unparted(k, kept[i])
        }),
    decreases v.len(),
{
    reveal(Seq::filter);
    if v.len() > 0 {
        let front = v.drop_last();
        lemma_kept_unparted(k, front);
        lemma_filter_step(k, v, v.len() - 1);
        assert(v.take(v.len() as int) =~= v);
        assert(v.take(v.len() - 1) =~= front);
    }
}

/// The components of the text that is written for a verbatim path.
proof fn lemma_written(prefix: Seq<char>, parts: Seq<Seq<char>>, n: nat)
    requires
        1 <= n <= parts.len(),
        parts[0] == root_text(PathStyle::Windows),
        forall|i: int|
            1 <= i < parts.len() ==> counts(Separators::Backslash, #[trigger] parts[i])
                && unparted(Separators::Backslash, parts[i]),
    ensures
        written(prefix, parts, n).len() > prefix.len(),
        counting(
            Separators::Backslash,
            written(prefix, parts, n).skip(prefix.len() as int + 1),
        ) == parts.subrange(1, n as int),
    decreases n,
{
    let k = Separators::Backslash;
    let from = prefix.len() as int + 1;
    let s = written(prefix, parts, n);
    if n == 1 {
        assert(written(prefix, parts, 0) == prefix);
        assert(s =~= prefix.push('\\'));
        assert(s.skip(from) =~= Seq::<char>::empty());
        lemma_counting_empty(k);
    } else {
        let front = written(prefix, parts, (n - 1) as nat);
        let e = parts[n - 1];
        lemma_written(prefix, parts, (n - 1) as nat);
        lemma_counting_one(k, e);
        assert(e != root_text(PathStyle::Windows)) by {
            assert(!separates(k, e[0]));
        }
        if n == 2 {
            assert(written(prefix, parts, 0) == prefix);
            assert(front =~= prefix.push('\\'));
            assert(s.skip(from) =~= e);
        } else {
            let before = parts[n - 2];
            assert(before != root_text(PathStyle::Windows)) by {
                assert(!separates(k, before[0]));
            }
            lemma_counting_join(k, front.skip(from), '\\', e);
            assert(s.skip(from) =~= front.skip(from).push('\\') + e);
        }
        assert(parts.subrange(1, n as int) =~= parts.subrange(1, n - 1).push(e));
    }
}

proof fn lemma_joined_verbatim(dir: Seq<char>, name: Seq<char>)
    requires
        is_component(PathStyle::Windows, name),
        is_verbatim(head_of(PathStyle::Windows, dir).prefix),
        holds_name(PathStyle::Windows, dir, name),
    ensures
        body(PathStyle::Windows, joined(PathStyle::Windows, dir, name)) == body(
            PathStyle::Windows,
            dir,
        ).push(name),
{
    let style = PathStyle::Windows;
    let head = head_of(style, dir);
    let end = head.prefix_end as int;
    let k = Separators::Backslash;
    lemma_prefix_fits(style, dir);
    assert(!is_separator(style, name[0]));
    let parts = components(style, dir).drop_first();
    assert(parts =~= seq![root_text(style)] + body(style, dir));
    let more = components(style, name);
    assert(more =~= seq![name]) by {
        assert forall|i: int| 0 <= i < name.len() implies !separates(
            Separators::Both,
            #[trigger] name[i],
        ) by {
            assert(!is_separator(style, name[i]));
        }
        lemma_counting_one(Separators::Both, name);
        assert(name.len() == 1 ==> name =~= seq![name[0]]);
        assert(!head_of(style, name).current);
        assert(name.skip(0) =~= name);
    }
    let all = resolved_all(parts, more, 1);
    assert(resolved_all(parts, more, 0) == parts);
    assert(all == parts.push(name));
    let rest = dir.skip(end + 1);
    assert(unified(k, rest) =~= rest);
    lemma_pieces_unparted(rest);
    lemma_kept_unparted(k, text::split(rest, '\\'));
    assert(unparted(k, name)) by {
        assert forall|i: int| 0 <= i < name.len() implies !separates(k, #[trigger] name[i]) by {
            assert(!is_separator(style, name[i]));
        }
    }
    assert forall|i: int| 1 <= i < all.len() implies counts(k, #[trigger] all[i]) && unparted(
        k,
        all[i],
    ) by {
        if i < parts.len() {
            assert(all[i] == body(style, dir)[i - 1]);
        }
    }
    lemma_written(dir.take(end), all, all.len());
    assert(all.subrange(1, all.len() as int) =~= body(style, dir).push(name));
}

/// A name that is joined to a directory is the last component behind those of
/// the directory.
pub proof fn law_joined_components(style: PathStyle, dir: Seq<char>, name: Seq<char>)
    requires
        is_component(style, name),
        holds_name(style, dir, name),
    ensures
        body(style, joined(style, dir, name)) == body(style, dir).push(name),
        components(style, joined(style, dir, name)) == components(style, dir).push(name),
{
    let s = joined(style, dir, name);
    let k = separators_in(style, dir);
    assert(!is_separator(style, name[0]));
    if style == PathStyle::Unix {
        lemma_unix_holds(dir, name);
    }
    assert forall|i: int| 0 <= i < name.len() implies !separates(k, #[trigger] name[i]) by {
        assert(!is_separator(style, name[i]));
    }
    lemma_prefix_fits(style, dir);
    if is_verbatim(head_of(style, dir).prefix) {
        lemma_joined_verbatim(dir, name);
        assert(components(style, s) =~= components(style, dir).push(name));
    } else if dir.len() > 0 && !is_separator(style, dir.last()) && !(head_of(style, dir).prefix
        == Prefix::Disk && dir.len() == 2) {
        let c = main_separator(style);
        let d = dir.push(c);
        assert(s =~= d + name);
        assert(s.take(d.len() as int) =~= d);
        assert(s[d.len() - 1] == c);
        lemma_head_take(style, s, d.len() as int);
        lemma_components_slash(style, dir, c);
        lemma_components_behind(style, d, name);
    } else {
        lemma_components_behind(style, dir, name);
    }
}

/// A directory on a drive of Windows holds every name, whether the path is
/// absolute or not.
pub proof fn law_drives_hold_names(dir: Seq<char>, name: Seq<char>)
    requires
        is_component(PathStyle::Windows, name),
        head_of(PathStyle::Windows, dir).prefix == Prefix::Disk,
    ensures
        holds_name(PathStyle::Windows, dir, name),
{
    let s = joined(PathStyle::Windows, dir, name);
    assert(!is_separator(PathStyle::Windows, name[0]));
    assert(s[0] == dir[0] && s[1] == dir[1]);
    assert(s.take(2) =~= dir.take(2));
    if dir.len() == 2 {
        assert(name.len() == 1 ==> name =~= seq![name[0]]);
        if name.len() > 1 {
            assert(!is_separator(PathStyle::Windows, name[1]));
        }
    } else {
        assert(s[2] == dir[2]);
        if dir.len() > 3 {
            assert(s[3] == dir[3]);
        }
    }
}

proof fn lemma_idle_end(style: PathStyle, s: Seq<char>)
    requires
        idle_end(separators_in(style, s), s, head_len(style, s)),
    ensures
        same_head(style, s.drop_last(), s),
        body(style, s.drop_last()) == body(style, s),
        components(style, s.drop_last()) == components(style, s),
{
    let k = separators_in(style, s);
    let h = head_len(style, s) as int;
    let t = s.drop_last();
    assert(t =~= s.take(s.len() - 1));
    lemma_head_take(style, s, s.len() - 1);
    lemma_counting_empty(k);
    if separates(k, s.last()) {
        lemma_counting_join(k, t.skip(h), s.last(), Seq::<char>::empty());
        assert(s.skip(h) =~= t.skip(h).push(s.last()) + Seq::<char>::empty());
    } else {
        let dot = seq!['.'];
        lemma_counting_one(k, dot);
        if s.len() - 1 == h {
            assert(s.skip(h) =~= dot);
            assert(t.skip(h) =~= Seq::<char>::empty());
        } else {
            let e = s.subrange(h, s.len() - 2);
            let c = s[s.len() - 2];
            lemma_counting_join(k, e, c, dot);
            lemma_counting_join(k, e, c, Seq::<char>::empty());
            assert(s.skip(h) =~= e.push(c) + dot);
            assert(t.skip(h) =~= e.push(c) + Seq::<char>::empty());
        }
    }
    assert(body(style, t) =~= body(style, s));
}

proof fn lemma_trim_end(style: PathStyle, s: Seq<char>)
    ensures
        ({
            let t = trim_end(separators_in(style, s), s, head_len(style, s));
            &&& same_head(style, t, s)
            &&& body(style, t) == body(style, s)
            &&& components(style, t) == components(style, s)
            &&& !idle_end(separators_in(style, s), t, head_len(style, s))
        }),
    decreases s.len(),
{
    if idle_end(separators_in(style, s), s, head_len(style, s)) {
        lemma_idle_end(style, s);
        lemma_trim_end(style, s.drop_last());
    }
}

proof fn lemma_cut(k: Separators, s: Seq<char>, head: nat)
    requires
        head <= s.len(),
    ensures
        ({
            let c = cut_component(k, s, head);
            let rest = s.skip(c.len() as int);
            &&& head <= c.len() <= s.len()
            &&& c == s.take(c.len() as int)
            &&& c + rest == s
            &&& forall|i: int| 0 <= i < rest.len() ==> !separates(k, #[trigger] rest[i])
            &&& c.len() == head || separates(k, c.last())
            &&& s.len() > head && !separates(k, s.last()) ==> rest.len() > 0
        }),
    decreases s.len(),
{
    let c = cut_component(k, s, head);
    if s.len() > head && !separates(k, s.last()) {
        lemma_cut(k, s.drop_last(), head);
        let inner = s.drop_last().skip(c.len() as int);
        let rest = s.skip(c.len() as int);
        assert(rest =~= inner.push(s.last()));
        assert(c + inner == s.drop_last());
        assert(c + rest =~= (c + inner).push(s.last()));
        assert((c + inner).push(s.last()) =~= s);
        assert(c =~= s.take(c.len() as int));
    } else {
        assert(s.skip(c.len() as int) =~= Seq::<char>::empty());
        assert(c + s.skip(c.len() as int) =~= s);
        assert(c =~= s.take(c.len() as int));
    }
}

/// The parent of a path with a file name has all components but the last.
pub proof fn law_parent_components(style: PathStyle, s: Seq<char>)
    requires
        file_name(style, s) is Some,
    ensures
        parent(style, s) is Some,
        components(style, s) == components(style, parent(style, s)->0).push(
            file_name(style, s)->0,
        ),
        counts(separators_in(style, s), file_name(style, s)->0),
        forall|i: int|
            0 <= i < file_name(style, s)->0.len() ==> !separates(
                separators_in(style, s),
                #[trigger] file_name(style, s)->0[i],
            ),
{
    let h = head_len(style, s);
    let k = separators_in(style, s);
    let t = trim_end(k, s, h);
    lemma_trim_end(style, s);
    lemma_counting_empty(k);
    lemma_prefix_fits(style, t);
    if t.len() <= h {
        assert(t.skip(h as int) =~= Seq::<char>::empty());
        assert(body(style, t) =~= Seq::<Seq<char>>::empty());
    } else {
        let c = cut_component(k, t, h);
        lemma_cut(k, t, h);
        let name = t.skip(c.len() as int);
        assert(name.len() > 0);
        assert(name.last() == t.last());
        assert(counts(k, name)) by {
            if k != Separators::Backslash && name == seq!['.'] {
                assert(name.len() == 1);
                assert(name[0] == '.');
                assert(t.last() == '.');
                if c.len() > h {
                    assert(t[t.len() - 2] == c.last());
                }
            }
        }
        if c.len() > h {
            assert(t[c.len() - 1] == c.last());
        }
        lemma_head_take(style, t, c.len() as int);
        lemma_components_behind(style, c, name);
        lemma_trim_end(style, c);
        assert(body(style, s) == body(style, c).push(name));
        assert(body(style, s).last() == name);
    }
}

/// The stem, a point and the extension make up the file name; the extension holds no
/// point, and the stem is not empty. A name without an extension is its own stem.
pub proof fn law_stem_and_extension_make_name(style: PathStyle, s: Seq<char>)
    ensures
        file_name(style, s) is None ==> file_stem(style, s) is None && extension(style, s) is None,
        file_name(style, s) matches Some(name) ==> {
            &&& file_stem(style, s) is Some
            &&& extension(style, s) matches Some(ext) ==> name == file_stem(style, s)->0 + seq![
                '.',
            ] + ext && !ext.contains('.') && file_stem(style, s)->0.len() > 0
            &&& extension(style, s) is None ==> file_stem(style, s)->0 == name && forall|i: int|
                0 < i < name.len() ==> #[trigger] name[i] != '.'
        },
{
    if let Some(name) = file_name(style, s) {
        lemma_last_dot_is_last(name);
        let d = last_dot(name) as int;
        if d > 0 {
            let ext = name.skip(d + 1);
            assert(name =~= name.take(d) + seq!['.'] + ext);
            assert forall|i: int| 0 <= i < ext.len() implies ext[i] != '.' by {
                assert(ext[i] == name[d + 1 + i]);
            }
        }
    }
}

proof fn lemma_last_dot_is_last(s: Seq<char>)
    ensures
        last_dot(s) <= s.len(),
        last_dot(s) > 0 ==> last_dot(s) < s.len() && s[last_dot(s) as int] == '.',
        forall|i: int| last_dot(s) < i < s.len() ==> #[trigger] s[i] != '.',
    decreases s.len(),
{
    if s.len() > 0 && s.last() != '.' {
        lemma_last_dot_is_last(s.drop_last());
        assert forall|i: int| last_dot(s) < i < s.len() implies #[trigger] s[i] != '.' by {
            if i < s.len() - 1 {
                assert(s[i] == s.drop_last()[i]);
            }
        }
    }
}

}
