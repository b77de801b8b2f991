//! Requirement extraction: recognising `(require 'name)` declarations in a
//! module's source lines.
//!
//! A line declares a requirement only when it begins, at column zero, with the
//! marker `(require '` immediately followed by a non-empty run of identifier
//! characters (letters, digits, underscore, hyphen) and a closing parenthesis.
//! Anything after the closing parenthesis is ignored; a line that deviates
//! from this anchored form declares nothing.

use vstd::prelude::*;

use crate::feature::Feature;
use crate::feature::FeatureView;
use crate::feature::resolve_spec;
use crate::feature::resolve_requirement;

verus! {

/// Characters allowed in a requirement identifier: letters, digits,
/// underscore and hyphen.
pub open spec fn is_ident_char(c: char) -> bool {
    ('a' as u32) <= (c as u32) && (c as u32) <= ('z' as u32)
        || ('A' as u32) <= (c as u32) && (c as u32) <= ('Z' as u32)
        || ('0' as u32) <= (c as u32) && (c as u32) <= ('9' as u32)
        || c == '_'
        || c == '-'
}

/// The anchored marker that must open a declaring line: `(require '`.
pub open spec fn require_marker() -> Seq<char> {
    seq!['(', 'r', 'e', 'q', 'u', 'i', 'r', 'e', ' ', '\'']
}

/// First position at or after `i` that does not hold an identifier character
/// (or the end of the line).
pub open spec fn ident_run_end(s: Seq<char>, i: int) -> int
    decreases s.len() - i,
{
    if 0 <= i < s.len() && is_ident_char(s[i]) {
        ident_run_end(s, i + 1)
    } else {
        i
    }
}

/// The requirement declared by one line, if any: the marker at column zero,
/// then a maximal non-empty identifier run, then `)`.
pub open spec fn parsed_require(s: Seq<char>) -> Option<Seq<char>> {
    let m = require_marker().len() as int;
    if s.len() > m && s.subrange(0, m) == require_marker() && is_ident_char(s[m]) {
        let e = ident_run_end(s, m);
        if e < s.len() && s[e] == ')' {
            Some(s.subrange(m, e))
        } else {
            None
        }
    } else {
        None
    }
}

/// Exec mirror of `is_ident_char`.
pub fn ident_char(c: char) -> (b: bool)
    ensures
        b == is_ident_char(c),
{
    let u = c as u32;
    ('a' as u32) <= u && u <= ('z' as u32)
        || ('A' as u32) <= u && u <= ('Z' as u32)
        || ('0' as u32) <= u && u <= ('9' as u32)
        || c == '_'
        || c == '-'
}

/// The character at position `i` of the marker `(require '`.
fn marker_char(i: usize) -> (c: char)
    requires
        i < require_marker().len(),
    ensures
        c == require_marker()[i as int],
{
    if i == 0 {
        '('
    } else if i == 1 {
        'r'
    } else if i == 2 {
        'e'
    } else if i == 3 {
        'q'
    } else if i == 4 {
        'u'
    } else if i == 5 {
        'i'
    } else if i == 6 {
        'r'
    } else if i == 7 {
        'e'
    } else if i == 8 {
        ' '
    } else {
        '\''
    }
}

/// A run of identifier characters over `[i, e)` that stops at `e` ends the
/// maximal run begun at `i`.
proof fn lemma_ident_run_end_from(s: Seq<char>, i: int, e: int)
    requires
        0 <= i <= e <= s.len(),
        forall|j: int| i <= j < e ==> is_ident_char(s[j]),
        e == s.len() || !is_ident_char(s[e]),
    ensures
        ident_run_end(s, i) == e,
    decreases e - i,
{
    if i < e {
        lemma_ident_run_end_from(s, i + 1, e);
    }
}

/// Parse one source line, returning the declared requirement name, if any.
pub fn parse_require_line(line: &str) -> (r: Option<String>)
    ensures
        r.deep_view() == parsed_require(line@),
{
    let ghost m = require_marker().len() as int;
    let n = line.unicode_len();
    if n < 12 {
        // Shorter than the marker, one identifier character and `)`.
        assert(parsed_require(line@) is None) by {
            if line@.len() > m && line@.subrange(0, m) == require_marker()
                && is_ident_char(line@[m]) {
                lemma_run_end_bounds(line@, m + 1);
                assert(ident_run_end(line@, m) == ident_run_end(line@, m + 1));
            }
        }
        return None;
    }
    let mut i: usize = 0;
    while i < 10
        invariant
            i <= 10,
            n == line@.len(),
            n >= 12,
            forall|j: int| 0 <= j < i ==> line@[j] == require_marker()[j],
        decreases 10 - i,
    {
        let c = line.get_char(i);
        let mc = marker_char(i);
        if c != mc {
            proof {
                let m2 = require_marker().len() as int;
                assert(require_marker().len() == 10);
                assert(line@[i as int] != require_marker()[i as int]);
                assert(line@.subrange(0, m2)[i as int] == line@[i as int]);
                assert(line@.subrange(0, m2) != require_marker());
            }
            return None;
        }
        i += 1;
    }
    assert(line@.subrange(0, m) =~= require_marker());
    if !ident_char(line.get_char(10)) {
        return None;
    }
    let mut e: usize = 11;
    while e < n && ident_char(line.get_char(e))
        invariant
            11 <= e <= n,
            n == line@.len(),
            forall|j: int| 10 <= j < e ==> is_ident_char(line@[j]),
        decreases n - e,
    {
        e += 1;
    }
    proof {
        lemma_ident_run_end_from(line@, m, e as int);
    }
    if e < n && line.get_char(e) == ')' {
        let name = line.substring_char(10, e);
        Some(String::from_str(name))
    } else {
        None
    }
}

/// The requirements one module declares, in line order with duplicates
/// preserved, each resolved against the sibling modules of its directory.
pub open spec fn extract_spec(
    lines: Seq<Seq<char>>,
    dir: Seq<char>,
    siblings: Seq<Seq<char>>,
) -> Seq<FeatureView>
    decreases lines.len(),
{
    if lines.len() == 0 {
        Seq::empty()
    } else {
        extract_spec(lines.drop_last(), dir, siblings) + (match parsed_require(lines.last()) {
            Some(n) => seq![resolve_spec(n, dir, siblings)],
            None => Seq::empty(),
        })
    }
}

/// Extract and resolve the requirements a module's source lines declare:
/// one entry per declaring line, in line order, duplicates preserved.
pub fn extract_requires(lines: &Vec<String>, dir: &str, siblings: &Vec<String>) -> (v: Vec<
    Feature,
>)
    ensures
        v.deep_view() == extract_spec(lines.deep_view(), dir@, siblings.deep_view()),
{
    let ghost lv = lines.deep_view();
    let n = lines.len();
    let mut v: Vec<Feature> = Vec::new();
    let mut i: usize = 0;
    while i < n
        invariant
            i <= n,
            n == lines@.len(),
            lv == lines.deep_view(),
            v.deep_view() == extract_spec(lv.take(i as int), dir@, siblings.deep_view()),
        decreases n - i,
    {
        let ghost pre = v.deep_view();
        proof {
            assert(lv.take(i + 1).drop_last() =~= lv.take(i as int));
            assert(lv.take(i + 1).last() == lv[i as int]);
            assert(lines@[i as int]@ == lv[i as int]);
        }
        match parse_require_line(lines[i].as_str()) {
            Some(name) => {
                let f = resolve_requirement(name.as_str(), dir, siblings);
                v.push(f);
                proof {
                    assert(v.deep_view() =~= pre + seq![
                        resolve_spec(name@, dir@, siblings.deep_view()),
                    ]);
                }
            },
            None => {
                proof {
                    assert(pre + Seq::<FeatureView>::empty() =~= pre);
                }
            },
        }
        i += 1;
    }
    proof {
        assert(lv.take(n as int) =~= lv);
    }
    v
}

/// The maximal identifier run begun at `i` ends no earlier than `i`, no later
/// than the end of the line.
proof fn lemma_run_end_bounds(s: Seq<char>, i: int)
    requires
        0 <= i <= s.len(),
    ensures
        i <= ident_run_end(s, i) <= s.len(),
    decreases s.len() - i,
{
    if i < s.len() && is_ident_char(s[i]) {
        lemma_run_end_bounds(s, i + 1);
    }
}

} // verus!
