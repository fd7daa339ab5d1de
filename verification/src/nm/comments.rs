//! The comments that a WireGuard configuration carries in its interface section.

use vstd::prelude::*;
use vstd::string::*;

use crate::text::{chars_of, ends_with, has_prefix, has_suffix, join, joined, lines, lines_of, lowercased, starts_with, to_lowercase, trim, trimmed};

verus! {

/// What a line of a configuration is.
#[derive(Debug, PartialEq, Eq)]
pub enum ConfigLine {
    /// The heading of the interface section.
    Interface,
    /// The heading of another section.
    Section,
    /// A comment with the text it holds.
    Comment(String),
    /// Anything else.
    Other,
}

/// What a line of a configuration is, as text.
#[verifier::ext_equal]
pub enum LineKind {
    Interface,
    Section,
    Comment(Seq<char>),
    Other,
}

impl View for ConfigLine {
    type V = LineKind;

    open spec fn view(&self) -> LineKind {
        match self {
            ConfigLine::Interface => LineKind::Interface,
            ConfigLine::Section => LineKind::Section,
            ConfigLine::Comment(t) => LineKind::Comment(t@),
            ConfigLine::Other => LineKind::Other,
        }
    }
}

/// What a trimmed line is, where `lower` is the line in lower case.
pub open spec fn kind_of(line: Seq<char>, lower: Seq<char>) -> LineKind {
    if has_prefix(lower, "[interface]"@) {
        LineKind::Interface
    } else if has_prefix(line, "["@) && has_suffix(line, "]"@) {
        LineKind::Section
    } else if line.len() > 0 && (line[0] == '#' || line[0] == ';') {
        LineKind::Comment(trimmed(line.skip(1)))
    } else {
        LineKind::Other
    }
}

/// What a trimmed line is, where `lower` is the line in lower case.
pub fn classify(line: &str, lower: &str) -> (r: ConfigLine)
    ensures
        r@ == kind_of(line@, lower@),
{
    if starts_with(lower, "[interface]") {
        return ConfigLine::Interface;
    }
    if starts_with(line, "[") && ends_with(line, "]") {
        return ConfigLine::Section;
    }
    let cs = chars_of(line);
    if cs.len() > 0 && (cs[0] == '#' || cs[0] == ';') {
        let body = line.substring_char(1, cs.len());
        assert(body@ =~= line@.skip(1));
        return ConfigLine::Comment(trim(body).to_owned());
    }
    ConfigLine::Other
}

/// Whether the lines seen so far end inside the interface section, and the
/// comments that stood in it.
pub open spec fn scanned(rows: Seq<Seq<char>>) -> (bool, Seq<Seq<char>>)
    decreases rows.len(),
{
    if rows.len() == 0 {
        (false, Seq::empty())
    } else {
        let (inside, comments) = scanned(rows.drop_last());
        let line = trimmed(rows.last());
        match kind_of(line, lowercased(line)) {
            LineKind::Interface => (true, comments),
            LineKind::Section => (false, comments),
            LineKind::Comment(t) => if inside && t.len() > 0 {
                (inside, comments.push(t))
            } else {
                (inside, comments)
            },
            LineKind::Other => (inside, comments),
        }
    }
}

/// The comments of the interface section of a configuration, one to a line.
pub open spec fn comments_in(content: Seq<char>) -> Seq<char> {
    joined(scanned(lines_of(content)).1, "\n"@)
}

/// The comments of the interface section of a configuration, one to a line.
pub fn extract_interface_comments(content: &str) -> (r: String)
    ensures
        r@ == comments_in(content@),
{
    let rows = lines(content);
    let ghost all = rows.deep_view();
    let mut comments: Vec<String> = Vec::new();
    let mut inside = false;
    let mut i: usize = 0;
    assert(comments.deep_view() =~= Seq::<Seq<char>>::empty());
    while i < rows.len()
        invariant
            i <= rows.len(),
            all == rows.deep_view(),
            scanned(all.take(i as int)) == (inside, comments.deep_view()),
        decreases rows.len() - i,
    {
        proof {
            let next = all.take(i as int + 1);
            assert(next.drop_last() =~= all.take(i as int));
            assert(next.last() == rows[i as int]@);
        }
        let line = trim(rows[i]);
        let lower = to_lowercase(line);
        match classify(line, lower.as_str()) {
            ConfigLine::Interface => {
                inside = true;
            },
            ConfigLine::Section => {
                inside = false;
            },
            ConfigLine::Comment(t) => {
                if inside && !t.as_str().is_empty() {
                    let ghost before = comments.deep_view();
                    let ghost text = t@;
                    comments.push(t);
                    assert(comments.deep_view() =~= before.push(text));
                }
            },
            ConfigLine::Other => {},
        }
        i += 1;
    }
    assert(all.take(i as int) =~= all);
    let list = comments.as_slice();
    assert(list.deep_view() =~= comments.deep_view());
    join(list, "\n")
}

/// A comment is kept exactly where it stands in the section of the interface and says
/// anything, without its mark and the white space around it; other lines are not
/// kept. The section starts at its heading and ends at the next one.
pub proof fn law_comments_of_the_interface(rows: Seq<Seq<char>>, line: Seq<char>)
    ensures
        ({
            let t = trimmed(line);
            let heads = has_prefix(lowercased(t), "[interface]"@);
            let other = !heads && has_prefix(t, "["@) && has_suffix(t, "]"@);
            let comment = !heads && !other && t.len() > 0 && (t[0] == '#' || t[0] == ';');
            let (inside, before) = scanned(rows);
            let (now_inside, after) = scanned(rows.push(line));
            &&& now_inside == (heads || inside && !other)
            &&& after == (if comment && inside && trimmed(t.skip(1)).len() > 0 {
                before.push(trimmed(t.skip(1)))
            } else {
                before
            })
        }),
{
    let all = rows.push(line);
    assert(all.drop_last() =~= rows);
    assert(all.last() == line);
}

} // verus!
