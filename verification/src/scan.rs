//! Which files a scan takes: the file-extension filter over a path given as
//! text, with `/` as the separator.

use vstd::prelude::*;
use vstd::string::*;

use crate::parser::{
    fixme_marker, parse_todo_attributes, parse_todo_reference, spec_parse_attributes,
    spec_parse_reference, todo_marker,
};
use crate::text::{
    find_last_char, find_str, find_sub, is_ws, is_ws_char, lemma_find_last_char, lemma_find_sub,
    match_at, rfind_char, spec_trim, str_eq, trim_str,
};
use crate::TodoItem;

verus! {

/// The file-name component: the text after the last `/`, or the whole path.
pub open spec fn spec_file_name(p: Seq<char>) -> Seq<char> {
    let sl = find_last_char(p, '/');
    if sl < 0 {
        p
    } else {
        p.subrange(sl + 1, p.len() as int)
    }
}

/// The extension of the file name: the text after its last `.`, absent when
/// there is no `.` or when the name begins with its only `.`.
pub open spec fn spec_extension(p: Seq<char>) -> Option<Seq<char>> {
    let name = spec_file_name(p);
    let d = find_last_char(name, '.');
    if d <= 0 {
        None
    } else {
        Some(name.subrange(d + 1, name.len() as int))
    }
}

/// The extensions a scan takes.
pub open spec fn spec_scannable_ext(e: Seq<char>) -> bool {
    ||| e == "rs"@
    ||| e == "py"@
    ||| e == "js"@
    ||| e == "ts"@
    ||| e == "java"@
    ||| e == "cpp"@
    ||| e == "c"@
    ||| e == "h"@
    ||| e == "go"@
    ||| e == "rb"@
    ||| e == "php"@
    ||| e == "swift"@
    ||| e == "kt"@
    ||| e == "scala"@
    ||| e == "cs"@
    ||| e == "sh"@
    ||| e == "bash"@
    ||| e == "zsh"@
    ||| e == "yaml"@
    ||| e == "yml"@
    ||| e == "toml"@
    ||| e == "md"@
    ||| e == "html"@
    ||| e == "css"@
    ||| e == "scss"@
    ||| e == "less"@
}

/// Whether a path's extension is one a scan takes.
pub open spec fn spec_should_scan(p: Seq<char>) -> bool {
    match spec_extension(p) {
        None => false,
        Some(e) => spec_scannable_ext(e),
    }
}

fn scannable_ext(e: &str) -> (r: bool)
    ensures
        r == spec_scannable_ext(e@),
{
    str_eq(e, "rs") || str_eq(e, "py") || str_eq(e, "js") || str_eq(e, "ts") || str_eq(
        e,
        "java",
    ) || str_eq(e, "cpp") || str_eq(e, "c") || str_eq(e, "h") || str_eq(e, "go") || str_eq(
        e,
        "rb",
    ) || str_eq(e, "php") || str_eq(e, "swift") || str_eq(e, "kt") || str_eq(e, "scala")
        || str_eq(e, "cs") || str_eq(e, "sh") || str_eq(e, "bash") || str_eq(e, "zsh")
        || str_eq(e, "yaml") || str_eq(e, "yml") || str_eq(e, "toml") || str_eq(e, "md")
        || str_eq(e, "html") || str_eq(e, "css") || str_eq(e, "scss") || str_eq(e, "less")
}

/// `c` equals the uppercase ASCII letter `u`, ignoring case.
pub open spec fn matches_ci(c: char, u: char) -> bool {
    c == u || c as u32 == u as u32 + 32
}

/// The marker `m` occurs at position `j` of `s`, ignoring ASCII case.
pub open spec fn marker_at_ci(s: Seq<char>, m: Seq<char>, j: int) -> bool {
    &&& 0 <= j
    &&& j + m.len() <= s.len()
    &&& forall|t: int| 0 <= t < m.len() ==> matches_ci(s[j + t], m[t])
}

/// A comment leader of length `l` at `i`, whitespace up to `j`, and a
/// case-insensitive `TODO` or `FIXME` at `j`.
pub open spec fn candidate_at(s: Seq<char>, i: int, l: int, j: int) -> bool {
    &&& ((l == 2 && (match_at(s, seq!['/', '/'], i) || match_at(s, seq!['/', '*'], i))) || (l
        == 1 && match_at(s, seq!['#'], i)) || (l == 4 && match_at(
        s,
        seq!['<', '!', '-', '-'],
        i,
    )))
    &&& i + l <= j
    &&& forall|t: int| i + l <= t < j ==> is_ws_char(s[t])
    &&& (marker_at_ci(s, todo_marker(), j) || marker_at_ci(s, fixme_marker(), j))
}

/// The line holds a comment leader (`//`, `/*`, `#`, `<!--`) followed,
/// after optional whitespace, by `TODO` or `FIXME` in any case.
pub open spec fn spec_is_candidate(s: Seq<char>) -> bool {
    exists|i: int, l: int, j: int| candidate_at(s, i, l, j)
}

fn char_ci(c: char, u: char) -> (r: bool)
    ensures
        r == matches_ci(c, u),
{
    c == u || c as u32 == u as u32 + 32
}

fn todo_or_fixme_at(line: &str, j: usize) -> (r: bool)
    requires
        j <= line@.len(),
    ensures
        r == (marker_at_ci(line@, todo_marker(), j as int) || marker_at_ci(
            line@,
            fixme_marker(),
            j as int,
        )),
{
    let len = line.unicode_len();
    let todo: bool = if len >= 4 && j <= len - 4 {
        char_ci(line.get_char(j), 'T') && char_ci(line.get_char(j + 1), 'O') && char_ci(
            line.get_char(j + 2),
            'D',
        ) && char_ci(line.get_char(j + 3), 'O')
    } else {
        false
    };
    proof {
        if todo {
            assert forall|t: int| 0 <= t < todo_marker().len() implies matches_ci(
                line@[j + t],
                todo_marker()[t],
            ) by {
                if t == 0 {
                } else if t == 1 {
                } else if t == 2 {
                } else {
                    assert(t == 3);
                }
            }
            assert(marker_at_ci(line@, todo_marker(), j as int));
        } else {
            if marker_at_ci(line@, todo_marker(), j as int) {
                assert(matches_ci(line@[j + 0], todo_marker()[0]));
                assert(matches_ci(line@[j + 1], todo_marker()[1]));
                assert(matches_ci(line@[j + 2], todo_marker()[2]));
                assert(matches_ci(line@[j + 3], todo_marker()[3]));
            }
        }
    }
    if todo {
        return true;
    }
    let fixme: bool = if len >= 5 && j <= len - 5 {
        char_ci(line.get_char(j), 'F') && char_ci(line.get_char(j + 1), 'I') && char_ci(
            line.get_char(j + 2),
            'X',
        ) && char_ci(line.get_char(j + 3), 'M') && char_ci(line.get_char(j + 4), 'E')
    } else {
        false
    };
    proof {
        if fixme {
            assert forall|t: int| 0 <= t < fixme_marker().len() implies matches_ci(
                line@[j + t],
                fixme_marker()[t],
            ) by {
                if t == 0 {
                } else if t == 1 {
                } else if t == 2 {
                } else if t == 3 {
                } else {
                    assert(t == 4);
                }
            }
            assert(marker_at_ci(line@, fixme_marker(), j as int));
        } else {
            if marker_at_ci(line@, fixme_marker(), j as int) {
                assert(matches_ci(line@[j + 0], fixme_marker()[0]));
                assert(matches_ci(line@[j + 1], fixme_marker()[1]));
                assert(matches_ci(line@[j + 2], fixme_marker()[2]));
                assert(matches_ci(line@[j + 3], fixme_marker()[3]));
                assert(matches_ci(line@[j + 4], fixme_marker()[4]));
            }
        }
    }
    fixme
}

/// Whether the line is a marker candidate, as [`spec_is_candidate`] says.
pub fn line_is_candidate(line: &str) -> (r: bool)
    ensures
        r == spec_is_candidate(line@),
{
    let len = line.unicode_len();
    let mut i: usize = 0;
    while i < len
        invariant
            i <= len,
            len == line@.len(),
            forall|a: int, l: int, j: int| 0 <= a < i ==> !candidate_at(line@, a, l, j),
        decreases len - i,
    {
        let c = line.get_char(i);
        let mut l: usize = 0;
        if c == '/' {
            if i + 1 < len {
                let c2 = line.get_char(i + 1);
                if c2 == '/' || c2 == '*' {
                    l = 2;
                }
            }
        } else if c == '#' {
            l = 1;
        } else if c == '<' {
            if len >= 4 && i < len - 3 && line.get_char(i + 1) == '!' && line.get_char(i + 2)
                == '-' && line.get_char(i + 3) == '-' {
                l = 4;
            }
        }
        if l > 0 {
            proof {
                if l == 2 {
                    assert(line@.subrange(i as int, i + 2) =~= seq![line@[i as int], line@[i
                        + 1]]);
                } else if l == 1 {
                    assert(line@.subrange(i as int, i + 1) =~= seq![line@[i as int]]);
                } else {
                    assert(line@.subrange(i as int, i + 4) =~= seq![line@[i as int], line@[i
                        + 1], line@[i + 2], line@[i + 3]]);
                }
            }
            let mut j: usize = i + l;
            while j < len && is_ws(line.get_char(j))
                invariant
                    i + l <= j <= len,
                    len == line@.len(),
                    forall|t: int| i + l <= t < j ==> is_ws_char(line@[t]),
                decreases len - j,
            {
                j += 1;
            }
            if todo_or_fixme_at(line, j) {
                proof {
                    assert(candidate_at(line@, i as int, l as int, j as int));
                }
                return true;
            }
            proof {
                assert forall|ll: int, jj: int| !candidate_at(line@, i as int, ll, jj) by {
                    if candidate_at(line@, i as int, ll, jj) {
                        if ll == 2 && (match_at(line@, seq!['/', '/'], i as int) || match_at(
                            line@,
                            seq!['/', '*'],
                            i as int,
                        )) {
                            assert(line@.subrange(i as int, i + 2)[0] == line@[i as int]);
                        } else if ll == 1 && match_at(line@, seq!['#'], i as int) {
                            assert(line@.subrange(i as int, i + 1)[0] == line@[i as int]);
                        } else {
                            assert(ll == 4 && match_at(line@, seq!['<', '!', '-', '-'], i as int));
                            assert(line@.subrange(i as int, i + 4)[0] == line@[i as int]);
                            assert(line@.subrange(i as int, i + 4)[1] == line@[i + 1]);
                            assert(line@.subrange(i as int, i + 4)[2] == line@[i + 2]);
                            assert(line@.subrange(i as int, i + 4)[3] == line@[i + 3]);
                        }
                        assert(ll == l);
                        if jj < j {
                            assert(is_ws_char(line@[jj]));
                            if marker_at_ci(line@, todo_marker(), jj) {
                                assert(matches_ci(line@[jj + 0], todo_marker()[0]));
                            } else {
                                assert(marker_at_ci(line@, fixme_marker(), jj));
                                assert(matches_ci(line@[jj + 0], fixme_marker()[0]));
                            }
                            assert(false);
                        } else if jj > j {
                            if j < len {
                                assert(is_ws_char(line@[j as int]));
                                assert(false);
                            } else {
                                assert(jj + todo_marker().len() > line@.len());
                                assert(jj + fixme_marker().len() > line@.len());
                                assert(false);
                            }
                        } else {
                            assert(false);
                        }
                    }
                }
            }
        } else {
            proof {
                assert forall|ll: int, jj: int| !candidate_at(line@, i as int, ll, jj) by {
                    if candidate_at(line@, i as int, ll, jj) {
                        if ll == 2 && (match_at(line@, seq!['/', '/'], i as int) || match_at(
                            line@,
                            seq!['/', '*'],
                            i as int,
                        )) {
                            if match_at(line@, seq!['/', '/'], i as int) {
                                assert(line@.subrange(i as int, i + 2)[0] == line@[i as int]);
                                assert(line@.subrange(i as int, i + 2)[1] == line@[i + 1]);
                            } else {
                                assert(line@.subrange(i as int, i + 2)[0] == line@[i as int]);
                                assert(line@.subrange(i as int, i + 2)[1] == line@[i + 1]);
                            }
                            assert(false);
                        } else if ll == 1 && match_at(line@, seq!['#'], i as int) {
                            assert(line@.subrange(i as int, i + 1)[0] == line@[i as int]);
                            assert(false);
                        } else {
                            assert(ll == 4 && match_at(line@, seq!['<', '!', '-', '-'], i as int));
                            assert(line@.subrange(i as int, i + 4)[0] == line@[i as int]);
                            assert(line@.subrange(i as int, i + 4)[1] == line@[i + 1]);
                            assert(line@.subrange(i as int, i + 4)[2] == line@[i + 2]);
                            assert(line@.subrange(i as int, i + 4)[3] == line@[i + 3]);
                            assert(false);
                        }
                    }
                }
            }
        }
        i += 1;
    }
    proof {
        assert forall|a: int, l: int, j: int| !candidate_at(line@, a, l, j) by {
            if candidate_at(line@, a, l, j) {
                if a >= i {
                    assert(marker_at_ci(line@, todo_marker(), j) || marker_at_ci(
                        line@,
                        fixme_marker(),
                        j,
                    ));
                    assert(j + 4 <= line@.len());
                    assert(a + l <= j);
                    assert(a < i);
                }
                if a < 0 {
                    assert(l == 2 || l == 1 || l == 4);
                    assert(false);
                }
            }
        }
    }
    false
}

/// `x` without one trailing carriage return, as a line before `\n` keeps it.
pub open spec fn strip_cr(x: Seq<char>) -> Seq<char> {
    if x.len() > 0 && x.last() == '\r' {
        x.drop_last()
    } else {
        x
    }
}

/// The lines of `s`: pieces split at `\n`, a `\r` before the `\n` removed,
/// and no final empty piece after a trailing `\n`.
pub open spec fn spec_lines(s: Seq<char>) -> Seq<Seq<char>>
    decreases s.len(),
{
    if s.len() == 0 {
        Seq::empty()
    } else {
        let p = find_sub(s, seq!['\n']);
        if p < 0 || p + 1 > s.len() {
            seq![s]
        } else {
            seq![strip_cr(s.subrange(0, p))] + spec_lines(s.subrange(p + 1, s.len() as int))
        }
    }
}

/// The 1-based numbers (starting at `base`) of the candidate lines, in
/// order.
pub open spec fn candidate_indices(lines: Seq<Seq<char>>, base: int) -> Seq<int>
    decreases lines.len(),
{
    if lines.len() == 0 {
        Seq::empty()
    } else {
        let rest = candidate_indices(lines.drop_first(), base + 1);
        if spec_is_candidate(lines[0]) {
            seq![base] + rest
        } else {
            rest
        }
    }
}

/// Candidate numbers lie in range and point at candidate lines.
pub proof fn lemma_candidate_indices_range(lines: Seq<Seq<char>>, base: int)
    ensures
        candidate_indices(lines, base).len() <= lines.len(),
        forall|q: int| 0 <= q < candidate_indices(lines, base).len() ==> base
            <= #[trigger] candidate_indices(lines, base)[q] < base + lines.len()
            && spec_is_candidate(lines[candidate_indices(lines, base)[q] - base]),
    decreases lines.len(),
{
    if lines.len() > 0 {
        lemma_candidate_indices_range(lines.drop_first(), base + 1);
        let rest = candidate_indices(lines.drop_first(), base + 1);
        let all = candidate_indices(lines, base);
        assert forall|q: int| 0 <= q < all.len() implies base <= #[trigger] all[q] < base
            + lines.len() && spec_is_candidate(lines[all[q] - base]) by {
            if spec_is_candidate(lines[0]) {
                if q == 0 {
                } else {
                    assert(all[q] == rest[q - 1]);
                    assert(lines.drop_first()[rest[q - 1] - (base + 1)] == lines[rest[q - 1]
                        - base]);
                }
            } else {
                assert(all[q] == rest[q]);
                assert(lines.drop_first()[rest[q] - (base + 1)] == lines[rest[q] - base]);
            }
        }
    }
}

/// A text has at most as many lines as characters.
pub proof fn lemma_lines_len_le(s: Seq<char>)
    ensures
        spec_lines(s).len() <= s.len(),
    decreases s.len(),
{
    if s.len() > 0 {
        let p = find_sub(s, seq!['\n']);
        if !(p < 0 || p + 1 > s.len()) {
            lemma_lines_len_le(s.subrange(p + 1, s.len() as int));
        }
    }
}

/// One scan item matches one line: the path and 1-based number are kept, the
/// content is the trimmed line, and the reference and attributes are exactly
/// what the parsers yield for it.
pub open spec fn item_for_line(it: TodoItem, path: Seq<char>, num: int, line: Seq<char>) -> bool {
    &&& it.file_path@ == path
    &&& it.line_number == num
    &&& it.line_content@ == spec_trim(line)
    &&& it.reference.deep_view() == spec_parse_reference(line)
    &&& (match it.attributes {
        Some(m) => m.wf() && spec_parse_attributes(line) == Some(m@),
        None => spec_parse_attributes(line) is None,
    })
}

/// Scan `contents` (belonging to the file at `file_path`) line by line: every
/// candidate line yields one item, in order, carrying its 1-based line
/// number, trimmed text, parsed reference and parsed attributes.
pub fn find_todos_in_content(contents: &str, file_path: &str) -> (todos: Vec<TodoItem>)
    ensures
        todos@.len() == candidate_indices(spec_lines(contents@), 1).len(),
        forall|q: int| 0 <= q < todos@.len() ==> item_for_line(
            todos@[q],
            file_path@,
            candidate_indices(spec_lines(contents@), 1)[q],
            spec_lines(contents@)[candidate_indices(spec_lines(contents@), 1)[q] - 1],
        ),
{
    let ghost all_lines = spec_lines(contents@);
    let ghost all_cands = candidate_indices(all_lines, 1);
    proof {
        lemma_candidate_indices_range(all_lines, 1);
        lemma_lines_len_le(contents@);
    }
    let mut todos: Vec<TodoItem> = Vec::new();
    let ghost mut done_nums: Seq<int> = Seq::empty();
    let mut rest: &str = contents;
    let mut nlines: usize = 0;
    let clen = contents.unicode_len();
    proof {
        assert(all_cands =~= done_nums + candidate_indices(spec_lines(rest@), 1));
    }
    loop
        invariant
            clen == contents@.len(),
            all_lines == spec_lines(contents@),
            all_cands == candidate_indices(all_lines, 1),
            all_lines.len() <= clen,
            nlines + spec_lines(rest@).len() == all_lines.len(),
            forall|t: int| 0 <= t < spec_lines(rest@).len() ==> spec_lines(rest@)[t]
                == all_lines[nlines + t],
            all_cands =~= done_nums + candidate_indices(spec_lines(rest@), nlines + 1),
            todos@.len() == done_nums.len(),
            forall|q: int| 0 <= q < todos@.len() ==> item_for_line(
                todos@[q],
                file_path@,
                done_nums[q],
                all_lines[done_nums[q] - 1],
            ),
        decreases rest@.len(),
    {
        proof {
            reveal_strlit("\n");
            assert("\n"@ =~= seq!['\n']);
            lemma_find_sub(rest@, seq!['\n']);
        }
        let rlen = rest.unicode_len();
        if rlen == 0 {
            proof {
                assert(spec_lines(rest@) =~= Seq::<Seq<char>>::empty());
                assert(candidate_indices(spec_lines(rest@), nlines + 1) =~= Seq::<
                    int,
                >::empty());
                assert(all_cands =~= done_nums);
            }
            return todos;
        }
        proof {
            assert(spec_lines(rest@).len() >= 1);
            assert(nlines < all_lines.len());
        }
        match find_str(rest, "\n") {
            Some(p) => {
                proof {
                    assert(match_at(rest@, seq!['\n'], p as int));
                }
                let line_str: &str = if p > 0 && rest.get_char(p - 1) == '\r' {
                    rest.substring_char(0, p - 1)
                } else {
                    rest.substring_char(0, p)
                };
                let ghost line0 = strip_cr(rest@.subrange(0, p as int));
                proof {
                    if p > 0 && rest@[p - 1] == '\r' {
                        assert(rest@.subrange(0, p as int).last() == rest@[p - 1]);
                        assert(rest@.subrange(0, p as int).drop_last() =~= rest@.subrange(
                            0,
                            p - 1,
                        ));
                    } else {
                        if rest@.subrange(0, p as int).len() > 0 {
                            assert(rest@.subrange(0, p as int).last() == rest@[p - 1]);
                        }
                    }
                    assert(line_str@ == line0);
                    assert(spec_lines(rest@) == seq![line0] + spec_lines(
                        rest@.subrange(p + 1, rest@.len() as int),
                    ));
                }
                let ghost old_rest = rest@;
                if line_is_candidate(line_str) {
                    let item = TodoItem {
                        file_path: String::from_str(file_path),
                        line_number: nlines + 1,
                        line_content: String::from_str(trim_str(line_str)),
                        reference: parse_todo_reference(line_str),
                        attributes: parse_todo_attributes(line_str),
                    };
                    todos.push(item);
                    proof {
                        done_nums = done_nums.push(nlines + 1);
                    }
                }
                rest = rest.substring_char(p + 1, rlen);
                nlines += 1;
                proof {
                    let lines_here = spec_lines(old_rest);
                    let tail = spec_lines(rest@);
                    assert(lines_here.drop_first() =~= tail);
                    assert(lines_here[0] == line0);
                    assert(candidate_indices(lines_here, nlines as int)
                        == if spec_is_candidate(line0) {
                        seq![nlines as int] + candidate_indices(tail, nlines + 1)
                    } else {
                        candidate_indices(tail, nlines + 1)
                    });
                    assert(all_cands =~= done_nums + candidate_indices(tail, nlines + 1));
                    assert forall|t: int| 0 <= t < tail.len() implies tail[t]
                        == all_lines[nlines + t] by {
                        assert(tail[t] == lines_here[t + 1]);
                        assert(lines_here[t + 1] == all_lines[nlines - 1 + t + 1]);
                    }
                    assert(all_lines[nlines - 1] == line0);
                }
            },
            None => {
                proof {
                    assert(spec_lines(rest@) == seq![rest@]);
                    assert(spec_lines(rest@).drop_first() =~= Seq::<Seq<char>>::empty());
                    assert(candidate_indices(Seq::<Seq<char>>::empty(), nlines + 2) =~= Seq::<
                        int,
                    >::empty());
                    assert(all_lines[nlines as int] == rest@);
                }
                if line_is_candidate(rest) {
                    let item = TodoItem {
                        file_path: String::from_str(file_path),
                        line_number: nlines + 1,
                        line_content: String::from_str(trim_str(rest)),
                        reference: parse_todo_reference(rest),
                        attributes: parse_todo_attributes(rest),
                    };
                    todos.push(item);
                    proof {
                        done_nums = done_nums.push(nlines + 1);
                        assert(candidate_indices(spec_lines(rest@), nlines + 1) =~= seq![
                            nlines + 1,
                        ]);
                        assert(all_cands =~= done_nums);
                    }
                } else {
                    proof {
                        assert(candidate_indices(spec_lines(rest@), nlines + 1) =~= Seq::<
                            int,
                        >::empty());
                        assert(all_cands =~= done_nums);
                    }
                }
                return todos;
            },
        }
    }
}

/// Whether the file at `path` takes part in a scan, by its extension, as
/// [`spec_should_scan`] says.
pub fn should_scan_file(path: &str) -> (r: bool)
    ensures
        r == spec_should_scan(path@),
{
    let plen = path.unicode_len();
    let name: &str = match rfind_char(path, '/') {
        Some(sl) => {
            proof {
                lemma_find_last_char(path@, '/');
            }
            path.substring_char(sl + 1, plen)
        },
        None => path,
    };
    let nlen = name.unicode_len();
    match rfind_char(name, '.') {
        Some(d) => {
            if d == 0 {
                false
            } else {
                proof {
                    lemma_find_last_char(name@, '.');
                }
                scannable_ext(name.substring_char(d + 1, nlen))
            }
        },
        None => false,
    }
}

} // verus!
