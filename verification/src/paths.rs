//! Paths as text: how a path falls into components, how two paths are joined,
//! and what a path is relative to another.
//!
//! Everything here is lexical. Whether a path exists, or what it is a link
//! to, is for the file system to say.

use crate::text::{chars_of, contains_text, join2, text_between};
use vstd::prelude::*;

verus! {

/// The two ways of writing paths.
#[derive(Debug, Clone, Copy, PartialEq, Eq, Structural)]
pub enum PathStyle {
    /// Components between slashes.
    Posix,
    /// Components between slashes or backslashes, behind an optional prefix:
    /// a drive (`C:`), a share (`\\server\share`), a device (`\\.\x`), or one of
    /// those that begin with `\\?\`, behind which only backslashes count.
    Windows,
}

/// Which characters stand between components.
#[derive(Debug, Clone, Copy, PartialEq, Eq, Structural)]
pub enum Marks {
    Slash,
    Either,
    Backslash,
}

/// What a path of Windows begins with.
#[derive(Debug, Clone, Copy, PartialEq, Eq, Structural)]
pub enum PrefixKind {
    Absent,
    /// `\\?\x`
    Verbatim,
    /// `\\?\UNC\server\share`
    VerbatimShare,
    /// `\\?\C:`
    VerbatimDrive,
    /// `\\.\x`
    Device,
    /// `\\server\share`
    Share,
    /// `C:`
    Drive,
}

/// What a component of a path is.
#[derive(Debug, Clone, Copy, PartialEq, Eq, Structural)]
pub enum PartKind {
    /// A drive, a share or the like.
    Prefix,
    /// The root directory.
    Root,
    /// `.`, which counts only at the beginning of a relative path and behind
    /// `\\?\`.
    Current,
    /// `..`
    Parent,
    /// A name.
    Normal,
}

/// A component of a path: what it is, and which characters of the path spell it.
#[derive(Debug, Clone, Copy, PartialEq, Eq, Structural)]
pub struct Part {
    pub kind: PartKind,
    pub from: usize,
    pub to: usize,
}

/// Whether `c` is one of the marks.
pub open spec fn is_mark(marks: Marks, c: char) -> bool {
    match marks {
        Marks::Slash => c == '/',
        Marks::Either => c == '/' || c == '\\',
        Marks::Backslash => c == '\\',
    }
}

/// The marks of a style.
pub open spec fn plain_marks(style: PathStyle) -> Marks {
    if style == PathStyle::Windows {
        Marks::Either
    } else {
        Marks::Slash
    }
}

/// Whether `c` stands between components.
pub open spec fn is_separator(style: PathStyle, c: char) -> bool {
    is_mark(plain_marks(style), c)
}

/// The character that `join` puts between two paths.
pub open spec fn main_separator(style: PathStyle) -> char {
    if style == PathStyle::Windows {
        '\\'
    } else {
        '/'
    }
}

/// Whether a path begins with `\\?\`.
pub open spec fn verbatim(style: PathStyle, s: Seq<char>) -> bool {
    style == PathStyle::Windows && s.len() >= 4 && s.take(4) == seq!['\\', '\\', '?', '\\']
}

/// The marks between the components of a path.
pub open spec fn marks_of(style: PathStyle, s: Seq<char>) -> Marks {
    if verbatim(style, s) {
        Marks::Backslash
    } else {
        plain_marks(style)
    }
}

/// The first mark at or behind `i`, or the end of the path.
pub open spec fn segment_end(marks: Marks, s: Seq<char>, i: int) -> int
    decreases s.len() - i,
{
    if i < 0 || i >= s.len() || is_mark(marks, s[i]) {
        i
    } else {
        segment_end(marks, s, i + 1)
    }
}

pub open spec fn is_letter(c: char) -> bool {
    ('a' <= c <= 'z') || ('A' <= c <= 'Z')
}

/// What a path begins with.
pub open spec fn prefix_kind(style: PathStyle, s: Seq<char>) -> PrefixKind {
    if style == PathStyle::Posix {
        PrefixKind::Absent
    } else if verbatim(style, s) {
        if s.len() >= 8 && s[4] == 'U' && s[5] == 'N' && s[6] == 'C' && is_separator(style, s[7]) {
            PrefixKind::VerbatimShare
        } else if s.len() >= 6 && is_letter(s[4]) && s[5] == ':' && (s.len() == 6 || is_separator(
            style,
            s[6],
        )) {
            PrefixKind::VerbatimDrive
        } else {
            PrefixKind::Verbatim
        }
    } else if s.len() >= 2 && is_separator(style, s[0]) && is_separator(style, s[1]) {
        if s.len() >= 4 && s[2] == '.' && is_separator(style, s[3]) {
            PrefixKind::Device
        } else {
            let server = segment_end(Marks::Either, s, 2);
            if 2 < server && server + 1 < segment_end(Marks::Either, s, server + 1) {
                PrefixKind::Share
            } else {
                PrefixKind::Absent
            }
        }
    } else if s.len() >= 2 && is_letter(s[0]) && s[1] == ':' {
        PrefixKind::Drive
    } else {
        PrefixKind::Absent
    }
}

/// Where the share ends behind the server that begins at `i`; the server's end
/// where there is no share.
pub open spec fn share_end(marks: Marks, s: Seq<char>, i: int) -> int {
    let server = segment_end(marks, s, i);
    let share = segment_end(marks, s, server + 1);
    if server + 1 < share {
        share
    } else {
        server
    }
}

/// How many characters of `s` spell its prefix.
pub open spec fn prefix_len(style: PathStyle, s: Seq<char>) -> int {
    match prefix_kind(style, s) {
        PrefixKind::Absent => 0,
        PrefixKind::Verbatim => segment_end(Marks::Backslash, s, 4),
        PrefixKind::VerbatimShare => share_end(Marks::Backslash, s, 8),
        PrefixKind::VerbatimDrive => 6,
        PrefixKind::Device => segment_end(Marks::Either, s, 4),
        PrefixKind::Share => share_end(Marks::Either, s, 2),
        PrefixKind::Drive => 2,
    }
}

/// Whether a root directory is spelled behind the prefix.
pub open spec fn spells_root(style: PathStyle, s: Seq<char>) -> bool {
    let p = prefix_len(style, s);
    p < s.len() && is_separator(style, s[p])
}

/// Whether the path starts at a root directory. Every prefix but a drive has
/// one of its own.
pub open spec fn has_root(style: PathStyle, s: Seq<char>) -> bool {
    ||| spells_root(style, s)
    ||| prefix_kind(style, s) != PrefixKind::Absent && prefix_kind(style, s) != PrefixKind::Drive
}

/// Whether the path needs no other path to be found by.
pub open spec fn absolute(style: PathStyle, s: Seq<char>) -> bool {
    has_root(style, s) && (style == PathStyle::Posix || prefix_kind(style, s)
        != PrefixKind::Absent)
}

/// What a name between separators is.
pub open spec fn segment_kind(name: Seq<char>) -> PartKind {
    if name == seq!['.'] {
        PartKind::Current
    } else if name == seq!['.', '.'] {
        PartKind::Parent
    } else {
        PartKind::Normal
    }
}

/// The components from `i` on. Empty names do not count, nor does `.`, but for
/// one with `lead` set, or where backslashes are the only marks.
pub open spec fn body_parts(marks: Marks, s: Seq<char>, i: int, lead: bool) -> Seq<Part>
    decreases s.len() - i,
    when 0 <= i
    via body_parts_shrink
{
    if i >= s.len() {
        Seq::empty()
    } else if is_mark(marks, s[i]) {
        body_parts(marks, s, i + 1, false)
    } else {
        let end = segment_end(marks, s, i);
        let kind = segment_kind(s.subrange(i, end));
        let rest = body_parts(marks, s, end, false);
        if kind == PartKind::Current && !lead && marks != Marks::Backslash {
            rest
        } else {
            seq![Part { kind, from: i as usize, to: end as usize }] + rest
        }
    }
}

#[via_fn]
proof fn body_parts_shrink(marks: Marks, s: Seq<char>, i: int, lead: bool) {
    if i < s.len() && !is_mark(marks, s[i]) {
        segment_end_bounds(marks, s, i + 1);
    }
}

proof fn segment_end_bounds(marks: Marks, s: Seq<char>, i: int)
    requires
        0 <= i,
    ensures
        i <= segment_end(marks, s, i),
        i <= s.len() ==> segment_end(marks, s, i) <= s.len(),
        forall|j: int| i <= j < segment_end(marks, s, i) ==> !is_mark(marks, #[trigger] s[j]),
        segment_end(marks, s, i) < s.len() ==> is_mark(marks, s[segment_end(marks, s, i)]),
    decreases s.len() - i,
{
    if i < s.len() && !is_mark(marks, s[i]) {
        segment_end_bounds(marks, s, i + 1);
    }
}

/// A prefix lies in the path.
pub proof fn prefix_bounds(style: PathStyle, s: Seq<char>)
    ensures
        0 <= prefix_len(style, s) <= s.len(),
        prefix_len(style, s) == 0 <==> prefix_kind(style, s) == PrefixKind::Absent,
{
    segment_end_bounds(Marks::Backslash, s, 4);
    segment_end_bounds(Marks::Backslash, s, 8);
    segment_end_bounds(Marks::Backslash, s, segment_end(Marks::Backslash, s, 8) + 1);
    segment_end_bounds(Marks::Either, s, 4);
    segment_end_bounds(Marks::Either, s, 2);
    segment_end_bounds(Marks::Either, s, segment_end(Marks::Either, s, 2) + 1);
}

/// The prefix and the root of a path, as far as it has them.
pub open spec fn head_parts(style: PathStyle, s: Seq<char>) -> Seq<Part> {
    let kind = prefix_kind(style, s);
    let p = prefix_len(style, s);
    let prefix = if kind != PrefixKind::Absent {
        seq![Part { kind: PartKind::Prefix, from: 0, to: p as usize }]
    } else {
        Seq::empty()
    };
    if spells_root(style, s) {
        prefix.push(Part { kind: PartKind::Root, from: p as usize, to: (p + 1) as usize })
    } else if kind == PrefixKind::Share || kind == PrefixKind::Device {
        prefix.push(Part { kind: PartKind::Root, from: p as usize, to: p as usize })
    } else {
        prefix
    }
}

/// Where the names of a path begin.
pub open spec fn body_start(style: PathStyle, s: Seq<char>) -> int {
    prefix_len(style, s) + if spells_root(style, s) {
        1int
    } else {
        0int
    }
}

/// Whether a `.` at the beginning of a path counts.
pub open spec fn leads(style: PathStyle, s: Seq<char>) -> bool {
    !has_root(style, s) && prefix_kind(style, s) == PrefixKind::Absent
}

/// The components of a path, in order.
pub open spec fn parts_of(style: PathStyle, s: Seq<char>) -> Seq<Part> {
    head_parts(style, s) + body_parts(
        marks_of(style, s),
        s,
        body_start(style, s),
        leads(style, s),
    )
}

/// A letter as a capital.
pub open spec fn capital(c: char) -> char {
    if 'a' <= c <= 'z' {
        (c as u32 - 32) as char
    } else {
        c
    }
}

/// What a prefix says: which kind it is, so that the kinds are in order, and
/// what it names. The letter of a drive may be small or not, and the marks in a
/// share are one as good as the other; a zero character stands for them.
pub open spec fn prefix_value(style: PathStyle, s: Seq<char>) -> Seq<char> {
    let p = prefix_len(style, s);
    match prefix_kind(style, s) {
        PrefixKind::Absent => Seq::empty(),
        PrefixKind::Verbatim => seq!['0'] + s.subrange(4, p),
        PrefixKind::VerbatimShare => seq!['1'] + marks_dropped(Marks::Backslash, s.subrange(8, p)),
        PrefixKind::VerbatimDrive => seq!['2', capital(s[4])],
        PrefixKind::Device => seq!['3'] + s.subrange(4, p),
        PrefixKind::Share => seq!['4'] + marks_dropped(Marks::Either, s.subrange(2, p)),
        PrefixKind::Drive => seq!['5', capital(s[0])],
    }
}

/// A text with a zero character in the place of each mark.
pub open spec fn marks_dropped(marks: Marks, s: Seq<char>) -> Seq<char> {
    s.map_values(
        |c: char|
            if is_mark(marks, c) {
                '\0'
            } else {
                c
            },
    )
}

/// What a component says, apart from where it stands.
pub open spec fn part_value(style: PathStyle, s: Seq<char>, part: Part) -> (PartKind, Seq<char>) {
    (
        part.kind,
        if part.kind == PartKind::Normal {
            s.subrange(part.from as int, part.to as int)
        } else if part.kind == PartKind::Prefix {
            prefix_value(style, s)
        } else {
            Seq::empty()
        },
    )
}

/// The components of a path by what they say. Two paths that agree here are
/// one path written in two ways.
#[verifier::opaque]
pub open spec fn components(style: PathStyle, s: Seq<char>) -> Seq<(PartKind, Seq<char>)> {
    parts_of(style, s).map_values(|part: Part| part_value(style, s, part))
}

fn mark(marks: Marks, c: char) -> (yes: bool)
    ensures
        yes == is_mark(marks, c),
{
    match marks {
        Marks::Slash => c == '/',
        Marks::Either => c == '/' || c == '\\',
        Marks::Backslash => c == '\\',
    }
}

fn marks_for(style: PathStyle) -> (marks: Marks)
    ensures
        marks == plain_marks(style),
{
    if style == PathStyle::Windows {
        Marks::Either
    } else {
        Marks::Slash
    }
}

fn separator(style: PathStyle, c: char) -> (yes: bool)
    ensures
        yes == is_separator(style, c),
{
    mark(marks_for(style), c)
}

fn is_verbatim(style: PathStyle, s: &Vec<char>) -> (yes: bool)
    ensures
        yes == verbatim(style, s@),
{
    let yes = style == PathStyle::Windows && s.len() >= 4 && s[0] == '\\' && s[1] == '\\' && s[2]
        == '?' && s[3] == '\\';
    proof {
        if s@.len() >= 4 {
            let start = s@.take(4);
            let wanted = seq!['\\', '\\', '?', '\\'];
            if yes {
                assert(start =~= wanted);
            } else if start == wanted {
                assert(start[0] == wanted[0] && start[1] == wanted[1] && start[2] == wanted[2]
                    && start[3] == wanted[3]);
                assert(s@[0] == start[0] && s@[1] == start[1] && s@[2] == start[2] && s@[3]
                    == start[3]);
            }
        }
    }
    yes
}

fn end_of_segment(marks: Marks, s: &Vec<char>, i: usize) -> (end: usize)
    requires
        i <= s@.len(),
    ensures
        end == segment_end(marks, s@, i as int),
        i <= end <= s@.len(),
{
    let mut end: usize = i;
    while end < s.len() && !mark(marks, s[end])
        invariant
            i <= end <= s@.len(),
            segment_end(marks, s@, i as int) == segment_end(marks, s@, end as int),
        decreases s@.len() - end,
    {
        end = end + 1;
    }
    end
}

fn end_of_share(marks: Marks, s: &Vec<char>, i: usize) -> (end: usize)
    requires
        i <= s@.len(),
    ensures
        end == share_end(marks, s@, i as int),
        i <= end <= s@.len(),
{
    let server = end_of_segment(marks, s, i);
    if server < s.len() {
        let share = end_of_segment(marks, s, server + 1);
        if server + 1 < share {
            return share;
        }
    }
    server
}

fn letter(c: char) -> (yes: bool)
    ensures
        yes == is_letter(c),
{
    ('a' <= c && c <= 'z') || ('A' <= c && c <= 'Z')
}

fn kind_of_prefix(style: PathStyle, s: &Vec<char>) -> (kind: PrefixKind)
    ensures
        kind == prefix_kind(style, s@),
{
    if style == PathStyle::Posix {
        return PrefixKind::Absent;
    }
    if is_verbatim(style, s) {
        if s.len() >= 8 && s[4] == 'U' && s[5] == 'N' && s[6] == 'C' && separator(style, s[7]) {
            return PrefixKind::VerbatimShare;
        }
        if s.len() >= 6 && letter(s[4]) && s[5] == ':' && (s.len() == 6 || separator(style, s[6])) {
            return PrefixKind::VerbatimDrive;
        }
        return PrefixKind::Verbatim;
    }
    if s.len() >= 2 && separator(style, s[0]) && separator(style, s[1]) {
        if s.len() >= 4 && s[2] == '.' && separator(style, s[3]) {
            return PrefixKind::Device;
        }
        let server = end_of_segment(Marks::Either, s, 2);
        if 2 < server && server < s.len() {
            if server + 1 < end_of_segment(Marks::Either, s, server + 1) {
                return PrefixKind::Share;
            }
        }
        return PrefixKind::Absent;
    }
    if s.len() >= 2 && letter(s[0]) && s[1] == ':' {
        return PrefixKind::Drive;
    }
    PrefixKind::Absent
}

fn length_of_prefix(style: PathStyle, s: &Vec<char>) -> (len: usize)
    ensures
        len == prefix_len(style, s@),
        len <= s@.len(),
{
    match kind_of_prefix(style, s) {
        PrefixKind::Absent => 0,
        PrefixKind::Verbatim => end_of_segment(Marks::Backslash, s, 4),
        PrefixKind::VerbatimShare => end_of_share(Marks::Backslash, s, 8),
        PrefixKind::VerbatimDrive => 6,
        PrefixKind::Device => end_of_segment(Marks::Either, s, 4),
        PrefixKind::Share => end_of_share(Marks::Either, s, 2),
        PrefixKind::Drive => 2,
    }
}

fn root_spelled(style: PathStyle, s: &Vec<char>) -> (yes: bool)
    ensures
        yes == spells_root(style, s@),
{
    let p = length_of_prefix(style, s);
    p < s.len() && separator(style, s[p])
}

fn rooted(style: PathStyle, s: &Vec<char>) -> (yes: bool)
    ensures
        yes == has_root(style, s@),
{
    let kind = kind_of_prefix(style, s);
    root_spelled(style, s) || (kind != PrefixKind::Absent && kind != PrefixKind::Drive)
}

fn kind_of_segment(s: &Vec<char>, from: usize, to: usize) -> (kind: PartKind)
    requires
        from <= to <= s@.len(),
    ensures
        kind == segment_kind(s@.subrange(from as int, to as int)),
{
    let ghost name = s@.subrange(from as int, to as int);
    if to - from == 1 && s[from] == '.' {
        assert(name =~= seq!['.']);
        PartKind::Current
    } else if to - from == 2 && s[from] == '.' && s[from + 1] == '.' {
        assert(name =~= seq!['.', '.']);
        assert(name.len() == 2);
        PartKind::Parent
    } else {
        proof {
            if name == seq!['.'] {
                assert(name.len() == 1 && name[0] == '.');
                assert(s@[from as int] == name[0]);
            }
            if name == seq!['.', '.'] {
                assert(name.len() == 2 && name[0] == '.' && name[1] == '.');
                assert(s@[from as int] == name[0] && s@[from + 1] == name[1]);
            }
        }
        PartKind::Normal
    }
}

/// The components of a path.
pub fn parts(style: PathStyle, s: &Vec<char>) -> (list: Vec<Part>)
    ensures
        list@ == parts_of(style, s@),
        forall|i: int| 0 <= i < list@.len() ==> (#[trigger] list@[i]).from <= list@[i].to <= s@.len(),
        forall|i: int, j: int|
            0 <= i < j < list@.len() ==> (#[trigger] list@[i]).to <= (#[trigger] list@[j]).from,
{
    let mut list: Vec<Part> = Vec::new();
    let kind = kind_of_prefix(style, s);
    let p = length_of_prefix(style, s);
    let marks = if is_verbatim(style, s) {
        Marks::Backslash
    } else {
        marks_for(style)
    };
    proof {
        prefix_bounds(style, s@);
    }
    if kind != PrefixKind::Absent {
        list.push(Part { kind: PartKind::Prefix, from: 0, to: p });
    }
    let mut i: usize = p;
    if root_spelled(style, s) {
        let total: usize = s.len();
        assert(p < total);
        list.push(Part { kind: PartKind::Root, from: p, to: p + 1 });
        i = p + 1;
    } else if kind == PrefixKind::Share || kind == PrefixKind::Device {
        list.push(Part { kind: PartKind::Root, from: p, to: p });
    }
    let mut lead = !rooted(style, s) && kind == PrefixKind::Absent;
    assert(list@ =~= head_parts(style, s@));
    while i < s.len()
        invariant
            i <= s@.len(),
            list@ + body_parts(marks, s@, i as int, lead) == parts_of(style, s@),
            forall|k: int|
                0 <= k < list@.len() ==> (#[trigger] list@[k]).from <= list@[k].to <= i,
            forall|k: int, j: int|
                0 <= k < j < list@.len() ==> (#[trigger] list@[k]).to <= (#[trigger] list@[j]).from,
        decreases s@.len() - i,
    {
        if mark(marks, s[i]) {
            i = i + 1;
        } else {
            let end = end_of_segment(marks, s, i);
            proof {
                segment_end_bounds(marks, s@, i + 1);
            }
            let kind = kind_of_segment(s, i, end);
            let ghost before = list@;
            let ghost rest = body_parts(marks, s@, end as int, false);
            if kind != PartKind::Current || lead || marks == Marks::Backslash {
                let part = Part { kind, from: i, to: end };
                list.push(part);
                assert(before + (seq![part] + rest) =~= list@ + rest);
            }
            i = end;
        }
        lead = false;
    }
    assert(list@ + body_parts(marks, s@, i as int, lead) =~= list@);
    list
}

fn large(c: char) -> (d: char)
    requires
        is_letter(c),
    ensures
        d == capital(c),
{
    if 'a' <= c && c <= 'z' {
        ((c as u8) - 32) as char
    } else {
        c
    }
}

fn without_marks(marks: Marks, s: &Vec<char>, from: usize, to: usize) -> (value: String)
    requires
        from <= to <= s@.len(),
    ensures
        value@ == marks_dropped(marks, s@.subrange(from as int, to as int)),
{
    let mut value = String::new();
    let mut i: usize = from;
    while i < to
        invariant
            from <= i <= to <= s@.len(),
            value@.len() == i - from,
            forall|j: int|
                0 <= j < i - from ==> value@[j] == marks_dropped(
                    marks,
                    s@.subrange(from as int, to as int),
                )[j],
        decreases to - i,
    {
        value.push(
            if mark(marks, s[i]) {
                '\0'
            } else {
                s[i]
            },
        );
        i = i + 1;
    }
    assert(value@ =~= marks_dropped(marks, s@.subrange(from as int, to as int)));
    value
}

/// What the prefix of a path says.
pub fn value_of_prefix(style: PathStyle, s: &Vec<char>) -> (value: String)
    ensures
        value@ == prefix_value(style, s@),
{
    let p = length_of_prefix(style, s);
    proof {
        reveal_strlit("0");
        reveal_strlit("1");
        reveal_strlit("2");
        reveal_strlit("3");
        reveal_strlit("4");
        reveal_strlit("5");
        segment_end_bounds(Marks::Backslash, s@, 4);
        segment_end_bounds(Marks::Either, s@, 4);
        segment_end_bounds(Marks::Backslash, s@, 8);
        segment_end_bounds(Marks::Either, s@, 2);
    }
    let value = match kind_of_prefix(style, s) {
        PrefixKind::Absent => String::new(),
        PrefixKind::Verbatim => join2("0", text_between(s, 4, p).as_str()),
        PrefixKind::VerbatimShare => join2(
            "1",
            without_marks(Marks::Backslash, s, 8, p).as_str(),
        ),
        PrefixKind::VerbatimDrive => {
            let mut drive = "2".to_owned();
            drive.push(large(s[4]));
            drive
        },
        PrefixKind::Device => join2("3", text_between(s, 4, p).as_str()),
        PrefixKind::Share => join2("4", without_marks(Marks::Either, s, 2, p).as_str()),
        PrefixKind::Drive => {
            let mut drive = "5".to_owned();
            drive.push(large(s[0]));
            drive
        },
    };
    assert(value@ =~= prefix_value(style, s@));
    value
}

/// Whether the path needs no other path to be found by.
pub fn is_absolute(style: PathStyle, path: &str) -> (yes: bool)
    ensures
        yes == absolute(style, path@),
{
    let s = chars_of(path);
    rooted(style, &s) && (style == PathStyle::Posix || kind_of_prefix(style, &s)
        != PrefixKind::Absent)
}

/// How a component is spelled: the root always with the style's own separator.
pub open spec fn spelling(style: PathStyle, s: Seq<char>, part: Part) -> (PartKind, Seq<char>) {
    (
        part.kind,
        if part.kind == PartKind::Root {
            seq![main_separator(style)]
        } else {
            s.subrange(part.from as int, part.to as int)
        },
    )
}

/// How the components of a path are spelled.
pub open spec fn spellings(style: PathStyle, s: Seq<char>) -> Seq<(PartKind, Seq<char>)> {
    parts_of(style, s).map_values(|part: Part| spelling(style, s, part))
}

/// A row of components with one more: a root cuts back to the prefix, `.` is
/// dropped, and `..` takes a name away.
pub open spec fn followed(
    list: Seq<(PartKind, Seq<char>)>,
    next: (PartKind, Seq<char>),
) -> Seq<(PartKind, Seq<char>)> {
    match next.0 {
        PartKind::Root => list.take(if list.len() > 1 {
            1int
        } else {
            list.len() as int
        }).push(next),
        PartKind::Current => list,
        PartKind::Parent => if list.len() > 0 && list.last().0 == PartKind::Normal {
            list.drop_last()
        } else {
            list
        },
        _ => list.push(next),
    }
}

/// A row of components with those of another one behind it.
pub open spec fn all_followed(
    list: Seq<(PartKind, Seq<char>)>,
    more: Seq<(PartKind, Seq<char>)>,
) -> Seq<(PartKind, Seq<char>)>
    decreases more.len(),
{
    if more.len() == 0 {
        list
    } else {
        followed(all_followed(list, more.drop_last()), more.last())
    }
}

/// A row of components as one path, with backslashes between them.
pub open spec fn written(list: Seq<(PartKind, Seq<char>)>) -> Seq<char>
    decreases list.len(),
{
    if list.len() == 0 {
        Seq::empty()
    } else {
        let before = written(list.drop_last());
        let last = list.last();
        if list.len() > 1 && last.0 != PartKind::Root && list[list.len() - 2].0 != PartKind::Root {
            before.push('\\') + last.1
        } else {
            before + last.1
        }
    }
}

/// `base` followed by `rest`, or `rest` alone where it does not depend on
/// `base`. Behind `\\?\` the components are put together anew, for there a
/// slash, `.` and `..` would be names.
pub open spec fn joined(style: PathStyle, base: Seq<char>, rest: Seq<char>) -> Seq<char> {
    if absolute(style, rest) || prefix_kind(style, rest) != PrefixKind::Absent {
        rest
    } else if verbatim(style, base) && rest.len() > 0 {
        written(all_followed(spellings(style, base), spellings(style, rest)))
    } else if has_root(style, rest) {
        base.take(prefix_len(style, base)) + rest
    } else if base.len() == 0 || is_separator(style, base.last()) || (prefix_kind(style, base)
        == PrefixKind::Drive && base.len() == 2) {
        base + rest
    } else {
        base.push(main_separator(style)) + rest
    }
}

/// The spelling of components.
pub open spec fn spelled(list: Seq<(PartKind, String)>) -> Seq<(PartKind, Seq<char>)> {
    list.map_values(|item: (PartKind, String)| (item.0, item.1@))
}

fn spell(style: PathStyle, s: &Vec<char>) -> (list: Vec<(PartKind, String)>)
    ensures
        spelled(list@) == spellings(style, s@),
{
    let all = parts(style, s);
    let mut list: Vec<(PartKind, String)> = Vec::new();
    let mut i: usize = 0;
    while i < all.len()
        invariant
            i <= all@.len(),
            list@.len() == i,
            all@ == parts_of(style, s@),
            forall|k: int| 0 <= k < all@.len() ==> (#[trigger] all@[k]).from <= all@[k].to <= s@.len(),
            forall|k: int|
                0 <= k < i ==> (list@[k].0, (#[trigger] list@[k]).1@) == spelling(
                    style,
                    s@,
                    all@[k],
                ),
        decreases all@.len() - i,
    {
        let part = all[i];
        let text = if part.kind == PartKind::Root {
            let mut mark = String::new();
            mark.push(
                if style == PathStyle::Windows {
                    '\\'
                } else {
                    '/'
                },
            );
            assert(mark@ =~= seq![main_separator(style)]);
            mark
        } else {
            text_between(s, part.from, part.to)
        };
        list.push((part.kind, text));
        i = i + 1;
    }
    assert(spelled(list@) =~= spellings(style, s@));
    list
}

fn follow(list: &mut Vec<(PartKind, String)>, kind: PartKind, text: String)
    ensures
        spelled(final(list)@) == followed(spelled(old(list)@), (kind, text@)),
{
    let ghost before = spelled(list@);
    let count: usize = list.len();
    match kind {
        PartKind::Root => {
            if count > 1 {
                list.truncate(1);
                assert(spelled(list@) =~= before.take(1));
            }
            let ghost cut = spelled(list@);
            assert(cut =~= before.take(
                if before.len() > 1 {
                    1int
                } else {
                    before.len() as int
                },
            ));
            list.push((kind, text));
            assert(spelled(list@) =~= cut.push((kind, text@)));
        },
        PartKind::Current => {},
        PartKind::Parent => {
            if count > 0 && list[count - 1].0 == PartKind::Normal {
                let _ = list.pop();
                assert(spelled(list@) =~= before.drop_last());
            }
        },
        _ => {
            list.push((kind, text));
            assert(spelled(list@) =~= before.push((kind, text@)));
        },
    }
}

fn write(list: &Vec<(PartKind, String)>) -> (path: String)
    ensures
        path@ == written(spelled(list@)),
{
    let ghost all = spelled(list@);
    let mut path = String::new();
    let mut i: usize = 0;
    assert(path@ =~= written(all.take(0)));
    while i < list.len()
        invariant
            i <= list@.len(),
            all == spelled(list@),
            path@ == written(all.take(i as int)),
        decreases list@.len() - i,
    {
        proof {
            assert(all.take(i + 1).drop_last() =~= all.take(i as int));
            assert(all.take(i + 1).last() == (list@[i as int].0, list@[i as int].1@));
            if i > 0 {
                assert(all.take(i + 1)[i - 1] == all[i - 1]);
                assert(all[i - 1].0 == list@[i - 1].0);
            }
        }
        if i > 0 && list[i].0 != PartKind::Root && list[i - 1].0 != PartKind::Root {
            path.push('\\');
        }
        path.append(list[i].1.as_str());
        i = i + 1;
    }
    assert(all.take(all.len() as int) =~= all);
    path
}

fn join_verbatim(style: PathStyle, base: &Vec<char>, rest: &Vec<char>) -> (path: String)
    ensures
        path@ == written(all_followed(spellings(style, base@), spellings(style, rest@))),
{
    let mut list = spell(style, base);
    let more = spell(style, rest);
    let ghost first = spellings(style, base@);
    let ghost all = spellings(style, rest@);
    let mut i: usize = 0;
    while i < more.len()
        invariant
            i <= more@.len(),
            all == spelled(more@),
            spelled(list@) == all_followed(first, all.take(i as int)),
        decreases more@.len() - i,
    {
        assert(all.take(i + 1).drop_last() =~= all.take(i as int));
        assert(all.take(i + 1).last() == (more@[i as int].0, more@[i as int].1@));
        follow(&mut list, more[i].0, more[i].1.clone());
        i = i + 1;
    }
    assert(all.take(all.len() as int) =~= all);
    write(&list)
}

/// `base` followed by `rest`, or `rest` alone where it does not depend on `base`.
pub fn join(style: PathStyle, base: &str, rest: &str) -> (path: String)
    ensures
        path@ == joined(style, base@, rest@),
{
    let b = chars_of(base);
    let r = chars_of(rest);
    let root = rooted(style, &r);
    if kind_of_prefix(style, &r) != PrefixKind::Absent || (root && style == PathStyle::Posix) {
        return rest.to_owned();
    }
    if is_verbatim(style, &b) && r.len() > 0 {
        return join_verbatim(style, &b, &r);
    }
    if root {
        let mut path = text_between(&b, 0, length_of_prefix(style, &b));
        path.append(rest);
        return path;
    }
    let mut path = base.to_owned();
    if b.len() > 0 && !separator(style, b[b.len() - 1]) && !(kind_of_prefix(style, &b)
        == PrefixKind::Drive && b.len() == 2) {
        path.push(
            if style == PathStyle::Windows {
                '\\'
            } else {
                '/'
            },
        );
    }
    path.append(rest);
    path
}

/// The path without its last component; nothing where that is a root or a
/// prefix, or there is none.
pub open spec fn parent_of(style: PathStyle, s: Seq<char>) -> Option<Seq<char>> {
    let list = parts_of(style, s);
    if list.len() == 0 || list.last().kind == PartKind::Root || list.last().kind
        == PartKind::Prefix {
        None
    } else if list.len() == 1 {
        Some(Seq::empty())
    } else {
        Some(s.take(list[list.len() - 2].to as int))
    }
}

/// The path without its last component.
pub fn parent(style: PathStyle, path: &str) -> (up: Option<String>)
    ensures
        up.deep_view() == parent_of(style, path@),
{
    let s = chars_of(path);
    let list = parts(style, &s);
    let n: usize = list.len();
    if n == 0 || list[n - 1].kind == PartKind::Root || list[n - 1].kind == PartKind::Prefix {
        None
    } else if n == 1 {
        Some(String::new())
    } else {
        let up = text_between(&s, 0, list[n - 2].to);
        assert(up@ =~= path@.take(list@[n - 2].to as int));
        Some(up)
    }
}

/// The name that the path ends in; nothing where it ends otherwise.
pub open spec fn name_of(style: PathStyle, s: Seq<char>) -> Option<Seq<char>> {
    let list = parts_of(style, s);
    if list.len() > 0 && list.last().kind == PartKind::Normal {
        Some(s.subrange(list.last().from as int, list.last().to as int))
    } else {
        None
    }
}

/// The name that the path ends in.
pub fn file_name(style: PathStyle, path: &str) -> (name: Option<String>)
    ensures
        name.deep_view() == name_of(style, path@),
{
    let s = chars_of(path);
    let list = parts(style, &s);
    let n: usize = list.len();
    if n > 0 && list[n - 1].kind == PartKind::Normal {
        Some(text_between(&s, list[n - 1].from, list[n - 1].to))
    } else {
        None
    }
}

fn same_part(style: PathStyle, s: &Vec<char>, a: Part, t: &Vec<char>, b: Part) -> (same: bool)
    requires
        a.from <= a.to <= s@.len(),
        b.from <= b.to <= t@.len(),
    ensures
        same == (part_value(style, s@, a) == part_value(style, t@, b)),
{
    if a.kind != b.kind {
        return false;
    }
    if a.kind == PartKind::Prefix {
        return value_of_prefix(style, s) == value_of_prefix(style, t);
    }
    if a.kind != PartKind::Normal {
        return true;
    }
    text_between(s, a.from, a.to) == text_between(t, b.from, b.to)
}

/// What is left of `s` behind the components of `base`, from the first
/// component to the last.
pub open spec fn stripped(style: PathStyle, s: Seq<char>, base: Seq<char>) -> Option<Seq<char>> {
    let list = parts_of(style, s);
    let n = parts_of(style, base).len();
    if components(style, base).is_prefix_of(components(style, s)) {
        if n == list.len() {
            Some(Seq::empty())
        } else {
            Some(s.subrange(list[n as int].from as int, list.last().to as int))
        }
    } else {
        None
    }
}

/// What is left of `path` behind `base`; nothing where it does not lie below.
#[verifier::loop_isolation(false)]
pub fn strip_prefix(style: PathStyle, path: &str, base: &str) -> (rest: Option<String>)
    ensures
        rest.deep_view() == stripped(style, path@, base@),
{
    let s = chars_of(path);
    let t = chars_of(base);
    let list = parts(style, &s);
    let wanted = parts(style, &t);
    let n: usize = wanted.len();
    let ghost have = components(style, path@);
    let ghost need = components(style, base@);
    proof {
        reveal(components);
    }
    if n > list.len() {
        return None;
    }
    let mut i: usize = 0;
    while i < n
        invariant
            i <= n,
            forall|j: int| 0 <= j < i ==> have[j] == need[j],
        decreases n - i,
    {
        if !same_part(style, &s, list[i], &t, wanted[i]) {
            assert(have[i as int] != need[i as int]);
            return None;
        }
        assert(have[i as int] == need[i as int]);
        i = i + 1;
    }
    assert(need =~= have.subrange(0, n as int));
    if n == list.len() {
        return Some(String::new());
    }
    Some(text_between(&s, list[n].from, list[list.len() - 1].to))
}

/// Whether two texts write one path.
#[verifier::loop_isolation(false)]
pub fn same_path(style: PathStyle, a: &str, b: &str) -> (same: bool)
    ensures
        same == (components(style, a@) == components(style, b@)),
{
    let s = chars_of(a);
    let t = chars_of(b);
    let list = parts(style, &s);
    let other = parts(style, &t);
    let ghost x = components(style, a@);
    let ghost y = components(style, b@);
    proof {
        reveal(components);
    }
    if list.len() != other.len() {
        assert(x.len() != y.len());
        return false;
    }
    let mut i: usize = 0;
    while i < list.len()
        invariant
            i <= list@.len(),
            forall|j: int| 0 <= j < i ==> x[j] == y[j],
        decreases list@.len() - i,
    {
        if !same_part(style, &s, list[i], &t, other[i]) {
            assert(x[i as int] != y[i as int]);
            return false;
        }
        assert(x[i as int] == y[i as int]);
        i = i + 1;
    }
    assert(x =~= y);
    true
}

/// Whether every component of the path is a name.
pub open spec fn all_names(style: PathStyle, s: Seq<char>) -> bool {
    forall|i: int|
        0 <= i < parts_of(style, s).len() ==> (#[trigger] parts_of(style, s)[i]).kind
            == PartKind::Normal
}

/// Whether every component of the path is a name.
#[verifier::loop_isolation(false)]
pub fn only_names(style: PathStyle, path: &str) -> (yes: bool)
    ensures
        yes == all_names(style, path@),
{
    let s = chars_of(path);
    let list = parts(style, &s);
    let mut i: usize = 0;
    while i < list.len()
        invariant
            i <= list@.len(),
            forall|j: int| 0 <= j < i ==> (#[trigger] list@[j]).kind == PartKind::Normal,
        decreases list@.len() - i,
    {
        if list[i].kind != PartKind::Normal {
            return false;
        }
        i = i + 1;
    }
    true
}

/// Whether one of the components is written like one of `names`.
pub open spec fn has_component_in(
    style: PathStyle,
    s: Seq<char>,
    names: Seq<Seq<char>>,
) -> bool {
    exists|i: int|
        0 <= i < parts_of(style, s).len() && names.contains(
            part_text(s, #[trigger] parts_of(style, s)[i]),
        )
}

/// The characters that spell a component.
pub open spec fn part_text(s: Seq<char>, part: Part) -> Seq<char> {
    s.subrange(part.from as int, part.to as int)
}

/// Whether one of the components is written like one of `names`.
#[verifier::loop_isolation(false)]
pub fn any_component_in(style: PathStyle, path: &str, names: &Vec<String>) -> (yes: bool)
    ensures
        yes == has_component_in(style, path@, names.deep_view()),
{
    let s = chars_of(path);
    let list = parts(style, &s);
    let mut i: usize = 0;
    while i < list.len()
        invariant
            i <= list@.len(),
            forall|j: int|
                0 <= j < i ==> !names.deep_view().contains(
                    part_text(path@, #[trigger] list@[j]),
                ),
        decreases list@.len() - i,
    {
        let name = text_between(&s, list[i].from, list[i].to);
        if contains_text(names, name.as_str()) {
            assert(names.deep_view().contains(part_text(path@, list@[i as int])));
            return true;
        }
        i = i + 1;
    }
    false
}

/// `path` with every backslash written as a slash.
pub open spec fn slashed(path: Seq<char>) -> Seq<char> {
    path.map_values(
        |c: char|
            if c == '\\' {
                '/'
            } else {
                c
            },
    )
}

/// `path` with every backslash written as a slash.
pub fn with_slashes(path: &str) -> (s: String)
    ensures
        s@ == slashed(path@),
{
    let chars = chars_of(path);
    let mut s = String::new();
    let mut i: usize = 0;
    while i < chars.len()
        invariant
            i <= chars@.len(),
            chars@ == path@,
            s@.len() == i,
            forall|j: int| 0 <= j < i ==> s@[j] == slashed(path@)[j],
        decreases chars@.len() - i,
    {
        s.push(
            if chars[i] == '\\' {
                '/'
            } else {
                chars[i]
            },
        );
        i = i + 1;
    }
    assert(s@ =~= slashed(path@));
    s
}

} // verus!
