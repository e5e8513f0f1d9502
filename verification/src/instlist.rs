//! The install list: a per-package text file mapping store files to
//! absolute destinations.

use crate::text::push_char;
use crate::text::split_on;
use crate::text::split_string;
use crate::text::str_to_string;
use crate::text::trim;
use crate::text::trim_of;
use vstd::prelude::*;

verus! {

/// One effective line: a store-relative source and an absolute target.
#[derive(Clone, Debug, PartialEq, Eq)]
pub struct InstListEntry {
    pub source_rel: String,
    pub target_abs: String,
}

/// Tabs read as spaces.
pub open spec fn space_norm(c: char) -> char {
    if c == '\t' {
        ' '
    } else {
        c
    }
}

/// The nonblank fields of a line.
pub open spec fn nonblank_fields(t: Seq<char>) -> Seq<Seq<char>> {
    split_on(t.map_values(|c: char| space_norm(c)), ' ').filter(|f: Seq<char>| f.len() > 0)
}

/// What one line contributes: nothing for a blank or `#` comment line or a
/// line without exactly two fields; else its two fields.
pub open spec fn line_entry(line: Seq<char>) -> Option<(Seq<char>, Seq<char>)> {
    let t = trim_of(line);
    if t.len() == 0 || t[0] == '#' {
        None
    } else {
        let fs = nonblank_fields(t);
        if fs.len() == 2 {
            Some((fs[0], fs[1]))
        } else {
            None
        }
    }
}

/// The entries of the given lines, in order.
pub open spec fn entries_of_lines(lines: Seq<Seq<char>>) -> Seq<(Seq<char>, Seq<char>)>
    decreases lines.len(),
{
    if lines.len() == 0 {
        Seq::<(Seq<char>, Seq<char>)>::empty()
    } else {
        entries_of_lines(lines.drop_last()) + (match line_entry(lines.last()) {
            Some(e) => seq![e],
            None => Seq::<(Seq<char>, Seq<char>)>::empty(),
        })
    }
}

/// The entries of a whole install-list file.
pub open spec fn parse_instlist(s: Seq<char>) -> Seq<(Seq<char>, Seq<char>)> {
    entries_of_lines(split_on(s, '\n'))
}

/// The views of parsed entries.
pub open spec fn entry_views(es: Seq<InstListEntry>) -> Seq<(Seq<char>, Seq<char>)> {
    es.map_values(|e: InstListEntry| (e.source_rel@, e.target_abs@))
}

/// Replaces tabs with spaces.
fn normalize_blanks(t: &str) -> (r: String)
    ensures
        r@ == t@.map_values(|c: char| space_norm(c)),
{
    let n = t.unicode_len();
    let mut r = String::new();
    let mut i: usize = 0;
    while i < n
        invariant
            0 <= i <= n,
            n == t@.len(),
            r@ == t@.subrange(0, i as int).map_values(|c: char| space_norm(c)),
        decreases n - i,
    {
        let c = t.get_char(i);
        let d: char = if c == '\t' {
            ' '
        } else {
            c
        };
        push_char(&mut r, d);
        proof {
            assert(r@ =~= t@.subrange(0, i + 1).map_values(|c2: char| space_norm(c2)));
        }
        i = i + 1;
    }
    proof {
        assert(t@.subrange(0, n as int) =~= t@);
    }
    r
}

/// The nonblank fields of a normalized line.
fn fields_of(t: &str) -> (r: Vec<String>)
    ensures
        r@.map_values(|f: String| f@) == nonblank_fields(t@),
{
    let norm = normalize_blanks(t);
    let raw = split_string(norm.as_str(), ' ');
    let ghost sp = split_on(t@.map_values(|c: char| space_norm(c)), ' ');
    let mut r: Vec<String> = Vec::new();
    let n = raw.len();
    let mut i: usize = 0;
    proof {
        assert(raw@.map_values(|f: String| f@) == sp);
        assert(sp.subrange(0, 0) =~= Seq::<Seq<char>>::empty());
        reveal(Seq::filter);
        assert(sp.subrange(0, 0).filter(|f: Seq<char>| f.len() > 0) =~= Seq::<Seq<char>>::empty());
        assert(r@.map_values(|f: String| f@) =~= Seq::<Seq<char>>::empty());
    }
    while i < n
        invariant
            0 <= i <= n,
            n == sp.len(),
            raw@.map_values(|f: String| f@) == sp,
            r@.map_values(|f: String| f@) == sp.subrange(0, i as int).filter(
                |f: Seq<char>| f.len() > 0,
            ),
        decreases n - i,
    {
        proof {
            assert(sp[i as int] == raw@.map_values(|f: String| f@)[i as int]);
            reveal(Seq::filter);
            assert(sp.subrange(0, i + 1).drop_last() =~= sp.subrange(0, i as int));
            assert(sp.subrange(0, i + 1).last() == sp[i as int]);
        }
        let ghost pre = r@;
        if raw[i].as_str().unicode_len() > 0 {
            let copied = str_to_string(raw[i].as_str());
            r.push(copied);
            proof {
                assert(r@ =~= pre.push(copied));
                assert(r@.map_values(|f: String| f@) =~= pre.map_values(|f: String| f@).push(
                    copied@,
                ));
                assert(sp.subrange(0, i + 1).filter(|f: Seq<char>| f.len() > 0) =~= sp.subrange(
                    0,
                    i as int,
                ).filter(|f: Seq<char>| f.len() > 0).push(sp[i as int]));
            }
        } else {
            proof {
                assert(sp.subrange(0, i + 1).filter(|f: Seq<char>| f.len() > 0) =~= sp.subrange(
                    0,
                    i as int,
                ).filter(|f: Seq<char>| f.len() > 0));
            }
        }
        i = i + 1;
    }
    proof {
        assert(sp.subrange(0, n as int) =~= sp);
    }
    r
}

/// Reads an install list: blank and `#` lines are ignored, and a line
/// counts only when it has exactly two fields.
pub fn parse_instlist_text(s: &str) -> (r: Vec<InstListEntry>)
    ensures
        entry_views(r@) == parse_instlist(s@),
{
    let lines = split_string(s, '\n');
    let ghost lv = split_on(s@, '\n');
    let mut r: Vec<InstListEntry> = Vec::new();
    let n = lines.len();
    let mut i: usize = 0;
    proof {
        assert(lines@.map_values(|t: String| t@) == lv);
        assert(lv.subrange(0, 0) =~= Seq::<Seq<char>>::empty());
        assert(entry_views(r@) =~= entries_of_lines(lv.subrange(0, 0)));
    }
    while i < n
        invariant
            0 <= i <= n,
            n == lv.len(),
            lines@.map_values(|t: String| t@) == lv,
            entry_views(r@) == entries_of_lines(lv.subrange(0, i as int)),
        decreases n - i,
    {
        proof {
            assert(lv[i as int] == lines@.map_values(|t: String| t@)[i as int]);
            assert(lv.subrange(0, i + 1).drop_last() =~= lv.subrange(0, i as int));
            assert(lv.subrange(0, i + 1).last() == lv[i as int]);
        }
        let t = trim(lines[i].as_str());
        let tn = t.as_str().unicode_len();
        let ghost pre = r@;
        if tn == 0 {
            proof {
                assert(line_entry(lv[i as int]) is None);
                assert(entries_of_lines(lv.subrange(0, i + 1)) =~= entries_of_lines(
                    lv.subrange(0, i as int),
                ));
            }
        } else if t.as_str().get_char(0) == '#' {
            proof {
                assert(line_entry(lv[i as int]) is None);
                assert(entries_of_lines(lv.subrange(0, i + 1)) =~= entries_of_lines(
                    lv.subrange(0, i as int),
                ));
            }
        } else {
            let fs = fields_of(t.as_str());
            if fs.len() == 2 {
                let entry = InstListEntry {
                    source_rel: str_to_string(fs[0].as_str()),
                    target_abs: str_to_string(fs[1].as_str()),
                };
                proof {
                    assert(nonblank_fields(trim_of(lv[i as int]))[0] == fs@.map_values(
                        |f: String| f@,
                    )[0]);
                    assert(nonblank_fields(trim_of(lv[i as int]))[1] == fs@.map_values(
                        |f: String| f@,
                    )[1]);
                    assert(line_entry(lv[i as int]) == Some((fs@[0]@, fs@[1]@)));
                }
                r.push(entry);
                proof {
                    assert(entry_views(r@) =~= entry_views(pre).push(
                        (entry.source_rel@, entry.target_abs@),
                    ));
                    assert(entries_of_lines(lv.subrange(0, i + 1)) =~= entries_of_lines(
                        lv.subrange(0, i as int),
                    ).push((fs@[0]@, fs@[1]@)));
                }
            } else {
                proof {
                    assert(nonblank_fields(trim_of(lv[i as int])).len() == fs@.map_values(
                        |f: String| f@,
                    ).len());
                    assert(line_entry(lv[i as int]) is None);
                    assert(entries_of_lines(lv.subrange(0, i + 1)) =~= entries_of_lines(
                        lv.subrange(0, i as int),
                    ));
                }
            }
        }
        i = i + 1;
    }
    proof {
        assert(lv.subrange(0, n as int) =~= lv);
    }
    r
}

} // verus!
