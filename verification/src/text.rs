//! How names, places and paths are written for a reader.

use crate::ir::{Name, NameView};
use crate::location::{Location, LocationView, PathEntry, PathEntryView};
use crate::varmap::{decimal, push_decimal};
use vstd::prelude::*;
use vstd::std_specs::iter::IteratorSpec;
use vstd::string::*;

verus! {

/// A string as a string literal of Rust writes it: in double quotes, with
/// escapes.
pub uninterp spec fn debug_string(s: Seq<char>) -> Seq<char>;

/// `format!` with `{:?}` on a string: the string as a literal, in double
/// quotes and with escapes.
#[verifier::external_body]
fn debug_text(s: &str) -> (r: String)
    ensures
        r@ == debug_string(s@),
{
    format!("{:?}", s)
}

/// The texts of strings, in the same order.
pub open spec fn texts(lines: Seq<String>) -> Seq<Seq<char>> {
    Seq::new(lines.len(), |k: int| lines[k]@)
}

/// Whether the text `a` comes before the text `b` or is the same: at the
/// first place where they differ `a` has the lesser character, or `a` ends
/// there.
pub open spec fn text_le(a: Seq<char>, b: Seq<char>) -> bool
    decreases a.len(),
{
    if a.len() == 0 {
        true
    } else if b.len() == 0 {
        false
    } else if a[0] != b[0] {
        (a[0] as u32) < (b[0] as u32)
    } else {
        text_le(a.drop_first(), b.drop_first())
    }
}

/// Whether no text comes before one that stands earlier.
pub open spec fn ascending_texts(lines: Seq<Seq<char>>) -> bool {
    forall|a: int, b: int| 0 <= a <= b < lines.len() ==> text_le(lines[a], lines[b])
}

/// `itertools::sorted` on strings: the same strings, in the order that
/// `String` has, which is that of their characters from the first on.
#[verifier::external_body]
pub(crate) fn sorted_strings(lines: Vec<String>) -> (r: Vec<String>)
    ensures
        texts(r@).to_multiset() == texts(lines@).to_multiset(),
        ascending_texts(texts(r@)),
{
    itertools::sorted(lines).collect()
}

/// Where the line ends that holds the position `from` of `s`: at the first
/// line feed from there on, or at the end of `s`.
pub open spec fn line_end(s: Seq<char>, from: nat) -> nat
    decreases s.len() - from,
{
    if from >= s.len() {
        s.len()
    } else if s[from as int] == '\n' {
        from
    } else {
        line_end(s, from + 1)
    }
}

/// A line without the carriage return at its end, if it has one.
pub open spec fn without_return(line: Seq<char>) -> Seq<char> {
    if line.len() > 0 && line.last() == '\r' {
        line.drop_last()
    } else {
        line
    }
}

/// The lines of `s` from the position `from` on. A line ends with a line
/// feed, or with a carriage return and a line feed, which are not part of
/// it. What stands after the last line feed is a line as it is, unless it
/// is empty.
pub open spec fn lines_from(s: Seq<char>, from: nat) -> Seq<Seq<char>>
    decreases s.len() - from,
{
    if from >= s.len() {
        Seq::empty()
    } else {
        let end = line_end(s, from);
        if end < from || end >= s.len() {
            seq![s.subrange(from as int, s.len() as int)]
        } else {
            seq![without_return(s.subrange(from as int, end as int))] + lines_from(s, end + 1)
        }
    }
}

/// A line ends at or after every position that it holds.
pub proof fn lemma_line_end(s: Seq<char>, from: nat)
    requires
        from <= s.len(),
    ensures
        from <= line_end(s, from) <= s.len(),
        line_end(s, from) < s.len() ==> s[line_end(s, from) as int] == '\n',
    decreases s.len() - from,
{
    if from < s.len() && s[from as int] != '\n' {
        lemma_line_end(s, from + 1);
    }
}

/// The lines of a text, in order, each without its line end.
pub fn lines_of(text: &str) -> (r: Vec<String>)
    ensures
        texts(r@) == lines_from(text@, 0),
{
    broadcast use vstd::string::group_string_axioms;

    let n = text.unicode_len();
    let mut lines: Vec<String> = Vec::new();
    let mut it = text.chars();
    let mut start: usize = 0;
    let mut k: usize = 0;
    let mut after_return = false;
    proof {
        assert(text@.subrange(0, n as int) =~= text@);
        assert(texts(lines@) =~= Seq::<Seq<char>>::empty());
        assert(texts(lines@) + lines_from(text@, 0) =~= lines_from(text@, 0));
    }
    while k < n
        invariant
            n == text@.len(),
            start <= k <= n,
            it.remaining() == text@.subrange(k as int, n as int),
            line_end(text@, start as nat) == line_end(text@, k as nat),
            after_return == (k > start && text@[k - 1] == '\r'),
            texts(lines@) + lines_from(text@, start as nat) == lines_from(text@, 0),
        decreases n - k,
    {
        let ghost rest = it.remaining();
        let c = match it.next() {
            Some(c) => c,
            None => {
                proof {
                    assert(rest.len() == n - k);
                }
                return lines;
            },
        };
        proof {
            assert(c == rest[0]);
            assert(rest[0] == text@[k as int]);
            assert(it.remaining() =~= text@.subrange(k + 1, n as int));
        }
        if c == '\n' {
            let end = if after_return {
                k - 1
            } else {
                k
            };
            let line = text.substring_char(start, end);
            let ghost before = lines@;
            lines.push(line.to_owned());
            proof {
                lemma_line_end(text@, (k + 1) as nat);
                let whole = text@.subrange(start as int, k as int);
                assert(line@ =~= without_return(whole));
                assert(texts(lines@) =~= texts(before) + seq![line@]);
                assert(texts(lines@) + lines_from(text@, (k + 1) as nat) =~= texts(before)
                    + lines_from(text@, start as nat));
            }
            start = k + 1;
            after_return = false;
        } else {
            after_return = c == '\r';
        }
        k = k + 1;
    }
    if start < n {
        let line = text.substring_char(start, n);
        let ghost before = lines@;
        lines.push(line.to_owned());
        proof {
            assert(texts(lines@) =~= texts(before) + seq![line@]);
        }
    } else {
        proof {
            assert(texts(lines@) + lines_from(text@, start as nat) =~= texts(lines@));
        }
    }
    lines
}

/// The name of a block, written short: a string as a literal, a number
/// after a `%`.
pub open spec fn bb_text(name: NameView) -> Seq<char> {
    match name {
        NameView::Name(s) => debug_string(s),
        NameView::Number(n) => seq!['%'] + decimal(n as nat),
    }
}

/// Writes the name of a block short: a string as a literal, a number after
/// a `%`.
pub fn pretty_bb_name(name: &Name) -> (r: String)
    ensures
        r@ == bb_text(name@),
{
    match name {
        Name::Name(s) => debug_text(s.as_str()),
        Name::Number(n) => {
            let mut r = String::new();
            proof {
                reveal_strlit("%");
            }
            r.append("%");
            push_decimal(&mut r, *n);
            proof {
                assert(r@ =~= bb_text(name@));
            }
            r
        },
    }
}

/// A step of a path, written out: module, function, block and the index
/// of the instruction.
pub open spec fn entry_text(e: PathEntryView) -> Seq<char> {
    seq!['{'] + e.modname + seq![':', ' '] + e.funcname + seq![' '] + bb_text(e.bbname) + seq![
        ',',
        ' ',
        'i',
        'n',
        's',
        't',
        'r',
        ' ',
    ] + decimal(e.instr as nat) + seq!['}']
}

/// Writes a step of a path at the end of a text.
pub fn push_entry(text: &mut String, entry: &PathEntry)
    ensures
        final(text)@ == old(text)@ + entry_text(entry@),
{
    proof {
        reveal_strlit("{");
        reveal_strlit(": ");
        reveal_strlit(" ");
        reveal_strlit(", instr ");
        reveal_strlit("}");
    }
    text.append("{");
    text.append(entry.modname.as_str());
    text.append(": ");
    text.append(entry.funcname.as_str());
    text.append(" ");
    let bb = pretty_bb_name(&entry.bbname);
    text.append(bb.as_str());
    text.append(", instr ");
    push_decimal(text, entry.instr);
    text.append("}");
    proof {
        assert(", instr "@ =~= seq![',', ' ', 'i', 'n', 's', 't', 'r', ' ']);
        assert(text@ =~= old(text)@ + entry_text(entry@));
    }
}

impl PathEntry {
    /// The step written out: `{module: function block, instr index}`.
    pub fn to_pretty_string(&self) -> (r: String)
        ensures
            r@ == entry_text(self@),
    {
        let mut r = String::new();
        push_entry(&mut r, self);
        proof {
            assert(r@ =~= entry_text(self@));
        }
        r
    }
}

/// A place, written out: the names of its module and its function as
/// string literals, the name of its block written short, and the index of
/// its instruction.
pub open spec fn location_text(l: LocationView) -> Seq<char> {
    location_opening() + debug_string(l.module.name@) + location_func() + debug_string(
        l.func.name@,
    ) + seq![',', ' ', 'b', 'b', ' '] + bb_text(l.bbname) + seq![
        ',',
        ' ',
        'i',
        'n',
        's',
        't',
        'r',
        ' ',
    ] + decimal(l.instr as nat) + seq!['>']
}

/// The words before the name of the module of a place.
pub open spec fn location_opening() -> Seq<char> {
    seq!['<', 'L', 'o', 'c', 'a', 't', 'i', 'o', 'n', ':', ' ', 'm', 'o', 'd', 'u', 'l', 'e', ' ']
}

/// The words before the name of the function of a place.
pub open spec fn location_func() -> Seq<char> {
    seq![',', ' ', 'f', 'u', 'n', 'c', ' ']
}

impl<'p> Location<'p> {
    /// The place written out:
    /// `<Location: module "m", func "f", bb %3, instr 0>`.
    pub fn to_pretty_string(&self) -> (r: String)
        ensures
            r@ == location_text(self@),
    {
        proof {
            reveal_strlit("<Location: module ");
            reveal_strlit(", func ");
            reveal_strlit(", bb ");
            reveal_strlit(", instr ");
            reveal_strlit(">");
        }
        let mut r = String::new();
        r.append("<Location: module ");
        r.append(debug_text(self.module.name.as_str()).as_str());
        r.append(", func ");
        r.append(debug_text(self.func.name.as_str()).as_str());
        r.append(", bb ");
        r.append(pretty_bb_name(&self.bbname).as_str());
        r.append(", instr ");
        push_decimal(&mut r, self.instr);
        r.append(">");
        proof {
            assert("<Location: module "@ =~= location_opening());
            assert(", func "@ =~= location_func());
            assert(", bb "@ =~= seq![',', ' ', 'b', 'b', ' ']);
            assert(", instr "@ =~= seq![',', ' ', 'i', 'n', 's', 't', 'r', ' ']);
            assert(r@ =~= location_text(self@));
        }
        r
    }
}

/// The lines one after the other, each after a line end.
pub open spec fn joined(lines: Seq<Seq<char>>, upto: nat) -> Seq<char>
    decreases upto,
{
    if upto == 0 || upto > lines.len() {
        Seq::empty()
    } else {
        joined(lines, (upto - 1) as nat) + seq!['\n'] + lines[upto - 1]
    }
}

/// Puts the lines one after the other, each after a line end.
pub fn join_lines(lines: &Vec<String>) -> (r: String)
    ensures
        r@ == joined(texts(lines@), lines@.len()),
{
    let mut r = String::new();
    let mut k: usize = 0;
    proof {
        reveal_strlit("\n");
    }
    while k < lines.len()
        invariant
            0 <= k <= lines@.len(),
            r@ == joined(texts(lines@), k as nat),
            "\n"@ == seq!['\n'],
        decreases lines@.len() - k,
    {
        r.append("\n");
        r.append(lines[k].as_str());
        k = k + 1;
    }
    r
}

/// Whether `out` is the text `text` with its lines in ascending order, each
/// after a line end.
pub open spec fn is_sorted_text(text: Seq<char>, out: Seq<char>) -> bool {
    exists|lines: Seq<Seq<char>>|
        {
            &&& lines.to_multiset() == lines_from(text, 0).to_multiset()
            &&& ascending_texts(lines)
            &&& out == #[trigger] joined(lines, lines.len())
        }
}

/// The lines of a text in ascending order, each after a line end.
pub fn sorted_lines(text: &str) -> (r: String)
    ensures
        is_sorted_text(text@, r@),
{
    let lines = sorted_strings(lines_of(text));
    let r = join_lines(&lines);
    proof {
        assert(r@ == joined(texts(lines@), texts(lines@).len()));
    }
    r
}

} // verus!
