//! The framing protocol of a persistent interactive shell session: comment
//! lines are stripped before transmission, the command is wrapped so that a
//! sentinel line follows its output, collection stops at the exact sentinel
//! line, and the echoed command text is cut away from the result.

use crate::text::{
    chars_to_string, find_from, first_match_from, is_space_char, join_lines,
    lemma_first_match_bounds, lemma_first_match_is, lemma_first_match_none, lemma_join_lines_push,
    lemma_match_at_skip, lemma_match_implies_found, lemma_trim_end_push_solid,
    lemma_trim_end_push_space, match_at, matches_at, push_char, str_chars,
    sub_vec, trim_end_bound, trim_end_spec, trim_spec, trim_start_spec, trim_text, trimmed_bounds,
};
use vstd::prelude::*;
use vstd::string::StringExecFns;

verus! {

/// The sentinel written by the wrapped command once its output is complete.
/// A full line equal to it, and nothing else, ends collection.
pub open spec fn marker() -> Seq<char> {
    "___COMMAND_END___"@
}

/// The sentinel as a string, for display or tests.
pub fn marker_text() -> (r: String)
    ensures
        r@ == marker(),
{
    String::from_str("___COMMAND_END___")
}

/// `s` without a single trailing carriage return, as `str::lines` yields a
/// line.
pub open spec fn strip_one_cr(s: Seq<char>) -> Seq<char> {
    if s.len() > 0 && s[s.len() - 1] == '\r' {
        s.drop_last()
    } else {
        s
    }
}

/// The lines of `s`, split as `str::lines` splits them: at every newline,
/// with one carriage return before the newline dropped, and with no empty
/// line after a final newline.
pub open spec fn lines_of(s: Seq<char>) -> Seq<Seq<char>>
    decreases s.len(),
{
    if s.len() == 0 {
        Seq::empty()
    } else {
        match first_match_from(s, seq!['\n'], 0) {
            None => seq![s],
            Some(i) => {
                proof {
                    lemma_first_match_bounds(s, seq!['\n'], 0);
                }
                seq![strip_one_cr(s.subrange(0, i))] + lines_of(s.subrange(i + 1, s.len() as int))
            },
        }
    }
}

/// A line whose first non-white-space character is the comment marker breaks
/// the request/response framing and is never transmitted.
pub open spec fn is_comment_line(l: Seq<char>) -> bool {
    let t = trim_start_spec(l);
    t.len() > 0 && t[0] == '#'
}

/// The lines that survive comment stripping.
pub open spec fn kept_lines(ls: Seq<Seq<char>>) -> Seq<Seq<char>> {
    ls.filter(|l: Seq<char>| !is_comment_line(l))
}

/// `s` with its comment lines removed and the rest rejoined with newlines.
pub open spec fn strip_comments_spec(s: Seq<char>) -> Seq<char> {
    join_lines(kept_lines(lines_of(s)))
}

proof fn lemma_kept_lines_push(ls: Seq<Seq<char>>, x: Seq<char>)
    ensures
        kept_lines(ls.push(x)) == if is_comment_line(x) {
            kept_lines(ls)
        } else {
            kept_lines(ls).push(x)
        },
{
    reveal(Seq::filter);
    assert(ls.push(x).drop_last() =~= ls);
    assert(ls.push(x).last() == x);
}

fn line_is_comment(v: &Vec<char>, from: usize, to: usize) -> (b: bool)
    requires
        from <= to <= v@.len(),
    ensures
        b == is_comment_line(v@.subrange(from as int, to as int)),
{
    let mut i = from;
    while i < to && is_space_char(v[i])
        invariant
            from <= i <= to <= v@.len(),
            trim_start_spec(v@.subrange(from as int, to as int)) == trim_start_spec(
                v@.subrange(i as int, to as int),
            ),
        decreases to - i,
    {
        proof {
            assert(v@.subrange(i as int, to as int).drop_first() =~= v@.subrange(
                i + 1,
                to as int,
            ));
        }
        i += 1;
    }
    proof {
        assert(trim_start_spec(v@.subrange(i as int, to as int)) == v@.subrange(
            i as int,
            to as int,
        ));
    }
    if i < to {
        v[i] == '#'
    } else {
        false
    }
}

/// Removes every comment line from `cmd` and joins the remaining lines with
/// newlines, ready for transmission.
pub fn strip_comments(cmd: &str) -> (r: String)
    ensures
        r@ == strip_comments_spec(cmd@),
{
    let v = str_chars(cmd);
    let n = v.len();
    let mut nl: Vec<char> = Vec::new();
    nl.push('\n');
    let mut out = String::new();
    let mut any_kept = false;
    let mut pos: usize = 0;
    let ghost mut done: Seq<Seq<char>> = Seq::empty();
    proof {
        assert(nl@ =~= seq!['\n']);
        assert(v@.skip(0) =~= v@);
        assert(Seq::empty() + lines_of(v@) =~= lines_of(v@));
        reveal(Seq::filter);
        assert(kept_lines(Seq::empty()) =~= Seq::<Seq<char>>::empty());
    }
    while pos < n
        invariant
            v@ == cmd@,
            n == v@.len(),
            pos <= n,
            nl@ == seq!['\n'],
            lines_of(v@) == done + lines_of(v@.skip(pos as int)),
            out@ == join_lines(kept_lines(done)),
            any_kept == (kept_lines(done).len() != 0),
        decreases n - pos,
    {
        let fi = find_from(&v, pos, &nl);
        let line_end: usize;
        let next_pos: usize;
        match fi {
            Some(i) => {
                proof {
                    lemma_first_match_bounds(v@, nl@, pos as int);
                }
                if i > pos && v[i - 1] == '\r' {
                    line_end = i - 1;
                } else {
                    line_end = i;
                }
                next_pos = i + 1;
                proof {
                    let s2 = v@.skip(pos as int);
                    assert forall|m: int| 0 <= m < i - pos implies !match_at(s2, nl@, m) by {
                        lemma_match_at_skip(v@, nl@, pos as int, m);
                    }
                    lemma_match_at_skip(v@, nl@, pos as int, i - pos);
                    lemma_first_match_is(s2, nl@, 0, i - pos);
                    assert(s2.subrange(0, i - pos) =~= v@.subrange(pos as int, i as int));
                    assert(s2.subrange(i - pos + 1, s2.len() as int) =~= v@.skip(
                        next_pos as int,
                    ));
                    if i > pos && v@[i - 1] == '\r' {
                        assert(v@.subrange(pos as int, i as int).drop_last() =~= v@.subrange(
                            pos as int,
                            line_end as int,
                        ));
                    }
                    assert(strip_one_cr(v@.subrange(pos as int, i as int)) == v@.subrange(
                        pos as int,
                        line_end as int,
                    ));
                    assert(lines_of(s2) == seq![v@.subrange(pos as int, line_end as int)]
                        + lines_of(v@.skip(next_pos as int)));
                }
            },
            None => {
                line_end = n;
                next_pos = n;
                proof {
                    let s2 = v@.skip(pos as int);
                    assert forall|m: int| 0 <= m implies !match_at(s2, nl@, m) by {
                        if match_at(s2, nl@, m) {
                            lemma_match_at_skip(v@, nl@, pos as int, m);
                            lemma_match_implies_found(v@, nl@, pos as int, pos + m);
                        }
                    }
                    lemma_first_match_none(s2, nl@, 0);
                    assert(s2 =~= v@.subrange(pos as int, line_end as int));
                    assert(v@.skip(next_pos as int).len() == 0);
                    assert(lines_of(s2) =~= seq![v@.subrange(pos as int, line_end as int)]
                        + lines_of(v@.skip(next_pos as int)));
                }
            },
        }
        let ghost line = v@.subrange(pos as int, line_end as int);
        let keep = !line_is_comment(&v, pos, line_end);
        if keep {
            let ghost prev = out@;
            if any_kept {
                push_char(&mut out, '\n');
            }
            let ls = chars_to_string(&v, pos, line_end);
            out.append(ls.as_str());
            proof {
                lemma_join_lines_push(kept_lines(done), line);
                if any_kept {
                    assert(out@ =~= join_lines(kept_lines(done)) + seq!['\n'] + line);
                } else {
                    assert(out@ =~= line);
                }
            }
            any_kept = true;
        }
        proof {
            lemma_kept_lines_push(done, line);
            let ghost new_done = done.push(line);
            assert(new_done + lines_of(v@.skip(next_pos as int)) =~= done + (seq![line]
                + lines_of(v@.skip(next_pos as int))));
            done = new_done;
        }
        pos = next_pos;
    }
    proof {
        assert(lines_of(v@.skip(pos as int)) =~= Seq::<Seq<char>>::empty());
        assert(done =~= lines_of(v@));
    }
    out
}

/// The text wrapped around a command before transmission: a catch-all so
/// shell failures become captured text, then an echo of the sentinel.
pub open spec fn wrap_prefix() -> Seq<char> {
    "Invoke-Command -ScriptBlock { try { "@
}

/// The text between the command and the sentinel echo.
pub open spec fn wrap_middle() -> Seq<char> {
    " } catch { Write-Output $_.Exception.Message } }; Write-Output '"@
}

/// The closing quote and the newline that submit the wrapped command.
pub open spec fn wrap_suffix() -> Seq<char> {
    "'\n"@
}

/// The full framed form of a command.
pub open spec fn wrap_spec(cmd: Seq<char>) -> Seq<char> {
    wrap_prefix() + cmd + wrap_middle() + marker() + wrap_suffix()
}

/// Frames `cmd` so that, whether it succeeds or fails, a line holding only
/// the sentinel follows its output.
pub fn wrap_command(cmd: &str) -> (r: String)
    ensures
        r@ == wrap_spec(cmd@),
{
    let mut r = String::from_str("Invoke-Command -ScriptBlock { try { ");
    r.append(cmd);
    r.append(" } catch { Write-Output $_.Exception.Message } }; Write-Output '");
    r.append("___COMMAND_END___");
    r.append("'\n");
    proof {
        assert(r@ =~= wrap_spec(cmd@));
    }
    r
}

/// The exact text to transmit for `cmd`: comment lines stripped, then framed.
pub fn prepare_command(cmd: &str) -> (r: String)
    ensures
        r@ == wrap_spec(strip_comments_spec(cmd@)),
{
    let stripped = strip_comments(cmd);
    wrap_command(stripped.as_str())
}

/// Whether a line read back from the shell is the sentinel line. Only a full
/// line equal to the sentinel, up to trailing white space, ends collection; a
/// line that merely contains the sentinel does not.
pub fn is_sentinel_line(line: &str) -> (b: bool)
    ensures
        b == (trim_end_spec(line@) == marker()),
{
    let v = str_chars(line);
    let hi = trim_end_bound(&v);
    let m = str_chars("___COMMAND_END___");
    if hi != m.len() {
        proof {
            assert(trim_end_spec(line@).len() == hi);
            assert(marker().len() == m@.len());
        }
        false
    } else {
        let r = matches_at(&v, &m, 0);
        proof {
            assert(v@.subrange(0, m@.len() as int) == v@.subrange(0, hi as int));
        }
        r
    }
}

/// The concatenation of the lines before the first sentinel line, and
/// whether a sentinel line was seen at all.
pub open spec fn collect_until_marker(lines: Seq<Seq<char>>) -> (Seq<char>, bool)
    decreases lines.len(),
{
    if lines.len() == 0 {
        (Seq::empty(), false)
    } else if trim_end_spec(lines[0]) == marker() {
        (Seq::empty(), true)
    } else {
        let r = collect_until_marker(lines.drop_first());
        (lines[0] + r.0, r.1)
    }
}

/// Concatenates the lines read from the shell up to, and not including, the
/// first sentinel line; reports whether the sentinel was seen before the
/// lines ran out.
pub fn collect_output(lines: &Vec<String>) -> (r: (String, bool))
    ensures
        r.0@ == collect_until_marker(lines.deep_view()).0,
        r.1 == collect_until_marker(lines.deep_view()).1,
{
    let mut acc = String::new();
    let mut i: usize = 0;
    let n = lines.len();
    proof {
        assert(lines.deep_view().skip(0) =~= lines.deep_view());
    }
    while i < n
        invariant
            n == lines@.len(),
            i <= n,
            collect_until_marker(lines.deep_view()).0 == acc@ + collect_until_marker(
                lines.deep_view().skip(i as int),
            ).0,
            collect_until_marker(lines.deep_view()).1 == collect_until_marker(
                lines.deep_view().skip(i as int),
            ).1,
        decreases n - i,
    {
        let ghost dv = lines.deep_view();
        proof {
            assert(dv.skip(i as int)[0] == lines@[i as int]@);
        }
        let li = &lines[i];
        if is_sentinel_line(li.as_str()) {
            proof {
                assert(acc@ + collect_until_marker(dv.skip(i as int)).0 =~= acc@);
            }
            return (acc, true);
        }
        let ghost prev = acc@;
        acc.append(li.as_str());
        proof {
            assert(dv.skip(i as int).drop_first() =~= dv.skip(i + 1));
            assert(prev + (lines@[i as int]@ + collect_until_marker(dv.skip(i + 1)).0) =~= acc@
                + collect_until_marker(dv.skip(i + 1)).0);
        }
        i += 1;
    }
    proof {
        assert(lines.deep_view().skip(n as int).len() == 0);
        assert(acc@ + collect_until_marker(lines.deep_view().skip(n as int)).0 =~= acc@);
    }
    (acc, false)
}

/// The result of one command once collection has ended: the output is cleaned
/// of the echoed command text and trimmed, or, where the stream ended before
/// the sentinel appeared, whatever was collected is returned as a distinct,
/// possibly truncated result.
pub enum ShellResult {
    Complete(String),
    Truncated(String),
}

/// The collected output with the echo of the wrapped command cut away: where
/// the transmitted text occurs, everything up to and including it, plus one
/// following newline, is discarded; the remainder is trimmed.
pub open spec fn clean_output_spec(out: Seq<char>, w: Seq<char>) -> Seq<char> {
    let wt = trim_end_spec(w);
    match first_match_from(out, wt, 0) {
        None => trim_spec(out),
        Some(p) => {
            let rest = out.subrange(p + wt.len(), out.len() as int);
            if rest.len() > 0 && rest[0] == '\n' {
                trim_spec(rest.drop_first())
            } else {
                trim_spec(rest)
            }
        },
    }
}

/// Cuts the echoed command text out of `output` and trims the remainder.
pub fn clean_output(output: &str, wrapped: &str) -> (r: String)
    ensures
        r@ == clean_output_spec(output@, wrapped@),
{
    let ov = str_chars(output);
    let wv = str_chars(wrapped);
    let whi = trim_end_bound(&wv);
    let wtv = sub_vec(&wv, 0, whi);
    let m = find_from(&ov, 0, &wtv);
    match m {
        None => {
            let (lo, hi) = trimmed_bounds(&ov, 0, ov.len());
            proof {
                assert(ov@.subrange(0, ov@.len() as int) =~= ov@);
            }
            chars_to_string(&ov, lo, hi)
        },
        Some(p) => {
            let n = ov.len();
            proof {
                lemma_first_match_bounds(ov@, wtv@, 0);
                assert(p + wtv@.len() <= n);
            }
            let mut start = p + wtv.len();
            let ghost rest = ov@.subrange(start as int, ov@.len() as int);
            if start < ov.len() && ov[start] == '\n' {
                proof {
                    assert(rest[0] == ov@[start as int]);
                    assert(rest.drop_first() =~= ov@.subrange(start + 1, ov@.len() as int));
                }
                start += 1;
            } else {
                proof {
                    if rest.len() > 0 {
                        assert(rest[0] == ov@[start as int]);
                    }
                }
            }
            let (lo, hi) = trimmed_bounds(&ov, start, ov.len());
            chars_to_string(&ov, lo, hi)
        },
    }
}

/// Assembles the final result of one command from the collected output.
/// Where the sentinel was seen the echo is cut away and the output trimmed;
/// where the stream ended first, the partial output is returned as truncated,
/// distinguishable from a clean completion.
pub fn finish_output(collected: &str, wrapped: &str, saw_sentinel: bool) -> (r: ShellResult)
    ensures
        match r {
            ShellResult::Complete(s) => saw_sentinel && s@ == clean_output_spec(
                collected@,
                wrapped@,
            ),
            ShellResult::Truncated(s) => !saw_sentinel && s@ == trim_spec(collected@),
        },
{
    if saw_sentinel {
        ShellResult::Complete(clean_output(collected, wrapped))
    } else {
        ShellResult::Truncated(trim_text(collected))
    }
}

/// Lines that are not the sentinel line pass through collection unchanged
/// and in order.
proof fn lemma_collect_clean(ls: Seq<Seq<char>>, rest: Seq<Seq<char>>)
    requires
        forall|i: int| 0 <= i < ls.len() ==> trim_end_spec(ls[i]) != marker(),
    ensures
        collect_until_marker(ls + rest).0 == ls.flatten() + collect_until_marker(rest).0,
        collect_until_marker(ls + rest).1 == collect_until_marker(rest).1,
    decreases ls.len(),
{
    if ls.len() == 0 {
        assert(ls + rest =~= rest);
        assert(ls.flatten() =~= Seq::<char>::empty());
        assert(ls.flatten() + collect_until_marker(rest).0 =~= collect_until_marker(rest).0);
    } else {
        lemma_collect_clean(ls.drop_first(), rest);
        assert((ls + rest).drop_first() =~= ls.drop_first() + rest);
        assert((ls + rest)[0] == ls[0]);
        assert(ls.flatten() == ls[0] + ls.drop_first().flatten());
        assert(ls[0] + (ls.drop_first().flatten() + collect_until_marker(rest).0) =~= (ls[0]
            + ls.drop_first().flatten()) + collect_until_marker(rest).0);
    }
}

/// Round trip through the framing: where the shell echoes the transmitted
/// text back, then prints exactly the payload lines, then the sentinel line,
/// the session returns the trimmed payload and nothing else — no echo, no
/// comment residue, no sentinel text — provided no payload line is itself the
/// sentinel line.
pub proof fn lemma_run_round_trip(cmd: Seq<char>, payload: Seq<Seq<char>>)
    requires
        forall|i: int| 0 <= i < payload.len() ==> trim_end_spec(payload[i]) != marker(),
    ensures
        ({
            let w = wrap_spec(cmd);
            let echoed = trim_end_spec(w) + seq!['\n'];
            let lines = seq![echoed] + payload + seq![marker() + seq!['\n']];
            let collected = collect_until_marker(lines);
            collected.1 == true && clean_output_spec(collected.0, w) == trim_spec(
                payload.flatten(),
            )
        }),
{
    reveal_strlit("'\n");
    reveal_strlit("___COMMAND_END___");
    let w = wrap_spec(cmd);
    let a = wrap_prefix() + cmd + wrap_middle() + marker();
    assert(wrap_suffix().len() == 2);
    assert(wrap_suffix()[0] == '\'');
    assert(wrap_suffix()[1] == '\n');
    assert(w =~= a.push('\'').push('\n'));
    lemma_trim_end_push_space(a.push('\''), '\n');
    lemma_trim_end_push_solid(a, '\'');
    let wt = trim_end_spec(w);
    assert(wt == a.push('\''));
    assert(marker().len() == 17);
    assert(marker()[16] == '_');
    assert(wt[wt.len() - 1] == '\'');
    assert(wt != marker());
    let echoed = wt + seq!['\n'];
    assert(echoed =~= wt.push('\n'));
    lemma_trim_end_push_space(wt, '\n');
    assert(trim_end_spec(echoed) == wt);
    let sline = marker() + seq!['\n'];
    assert(sline =~= marker().push('\n'));
    lemma_trim_end_push_space(marker(), '\n');
    assert(trim_end_spec(marker()) == marker());
    assert(trim_end_spec(sline) == marker());
    let lines = seq![echoed] + payload + seq![sline];
    assert(seq![sline][0] == sline);
    assert(collect_until_marker(seq![sline]).0 =~= Seq::<char>::empty());
    assert(collect_until_marker(seq![sline]).1);
    let tail = payload + seq![sline];
    lemma_collect_clean(payload, seq![sline]);
    assert(collect_until_marker(tail).0 =~= payload.flatten());
    assert(collect_until_marker(tail).1);
    assert(lines[0] == echoed);
    assert(lines.drop_first() =~= tail);
    assert(collect_until_marker(lines).0 == echoed + collect_until_marker(tail).0);
    assert(collect_until_marker(lines).1 == collect_until_marker(tail).1);
    let collected = collect_until_marker(lines).0;
    assert(collected =~= (wt + seq!['\n']) + payload.flatten());
    assert(collected.subrange(0, wt.len() as int) =~= wt);
    lemma_first_match_is(collected, wt, 0, 0);
    let rest = collected.subrange(wt.len() as int, collected.len() as int);
    assert(rest =~= seq!['\n'] + payload.flatten());
    assert(rest[0] == '\n');
    assert(rest.drop_first() =~= payload.flatten());
}

} // verus!
