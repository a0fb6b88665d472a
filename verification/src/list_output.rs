//! Reading a program's stdout as a list of per-component results, and
//! rendering it as a notification detail.
//!
//! Each line of stdout names a component and its outcome:
//! `component:success` or `component:failure[:reason]`. A line that
//! fits neither shape makes the whole output non-conforming, and the
//! rendering reports the first such line instead.

use vstd::prelude::*;
use vstd::string::StrSliceExecFns;
use vstd::string::StringExecFns;
use crate::message::DetailElement;
use crate::message::FormattedString;
use crate::message::MessageDetail;
use crate::message::Style;
use crate::program_output::ProgramOutput;
use crate::program_output::is_mono_section;
use crate::run_log::first_colon;
use crate::run_log::lemma_first_colon_is;
use crate::run_log::split_lines;
use crate::text::dec_rep;
use crate::text::str_eq;
use crate::text::u64_to_string;

verus! {

/// What one stdout line reports: whether it is a failure, the
/// component, and the failure reason (a default when none is given).
/// `None` for a line with no colon or an unknown outcome word.
pub open spec fn line_reading(l: Seq<char>) -> Option<(bool, Seq<char>, Seq<char>)> {
    let c1 = first_colon(l);
    if c1 == l.len() {
        None
    } else {
        let component = l.take(c1);
        let rest = l.skip(c1 + 1);
        let c2 = first_colon(rest);
        let result_txt = rest.take(c2);
        let reason = if c2 < rest.len() {
            rest.skip(c2 + 1)
        } else {
            "No reason provided"@
        };
        if result_txt == "success"@ {
            Some((false, component, Seq::empty()))
        } else if result_txt == "failure"@ {
            Some((true, component, reason))
        } else {
            None
        }
    }
}

pub open spec fn all_lines_readable(lines: Seq<Seq<char>>) -> bool {
    forall|i: int| 0 <= i < lines.len() ==> line_reading(#[trigger] lines[i]) is Some
}

/// Index of the first unreadable line, or the line count.
pub open spec fn first_unreadable(lines: Seq<Seq<char>>) -> int
    decreases lines.len(),
{
    if lines.len() == 0 {
        0
    } else if line_reading(lines[0]) is None {
        0
    } else {
        1 + first_unreadable(lines.skip(1))
    }
}

pub proof fn lemma_first_unreadable_is(lines: Seq<Seq<char>>, k: int)
    requires
        0 <= k <= lines.len(),
        forall|j: int| 0 <= j < k ==> line_reading(#[trigger] lines[j]) is Some,
        k < lines.len() ==> line_reading(lines[k]) is None,
    ensures
        first_unreadable(lines) == k,
    decreases k,
{
    if k > 0 {
        assert(forall|j: int|
            0 <= j < k - 1 ==> line_reading(#[trigger] lines.skip(1)[j]) is Some);
        if k < lines.len() {
            assert(lines.skip(1)[k - 1] == lines[k]);
        }
        lemma_first_unreadable_is(lines.skip(1), k - 1);
    }
}

/// The failed components with their reasons, in line order.
pub open spec fn failures_of(lines: Seq<Seq<char>>) -> Seq<(Seq<char>, Seq<char>)>
    decreases lines.len(),
{
    if lines.len() == 0 {
        Seq::empty()
    } else {
        let rest = failures_of(lines.drop_last());
        match line_reading(lines.last()) {
            Some(t) => if t.0 {
                rest.push((t.1, t.2))
            } else {
                rest
            },
            None => rest,
        }
    }
}

/// The successful components, in line order.
pub open spec fn successes_of(lines: Seq<Seq<char>>) -> Seq<Seq<char>>
    decreases lines.len(),
{
    if lines.len() == 0 {
        Seq::empty()
    } else {
        let rest = successes_of(lines.drop_last());
        match line_reading(lines.last()) {
            Some(t) => if t.0 {
                rest
            } else {
                rest.push(t.1)
            },
            None => rest,
        }
    }
}

/// The parts of the failed-components section: `None` when nothing
/// failed; else, per failure, a dash-prefixed name, the reason in
/// monospace, and a line break between failures.
pub open spec fn failed_parts_ok(
    parts: Seq<FormattedString>,
    fails: Seq<(Seq<char>, Seq<char>)>,
) -> bool {
    if fails.len() == 0 {
        parts.len() == 1 && parts[0].text@ == "None"@ && parts[0].style == Style::Plain
    } else {
        &&& parts.len() == 3 * fails.len() - 1
        &&& forall|p: int|
            #![trigger parts[p]]
            0 <= p < parts.len() ==> (if p % 3 == 0 {
                parts[p].text@ == "- "@ + fails[p / 3].0 + " "@ && parts[p].style == Style::Plain
            } else if p % 3 == 1 {
                parts[p].text@ == fails[p / 3].1 && parts[p].style == Style::Monospace
            } else {
                parts[p].text@ == "\n"@ && parts[p].style == Style::Plain
            })
    }
}

/// The parts of the successful-components section: `None` when nothing
/// succeeded; else a dash-prefixed name per success, line breaks
/// between them.
pub open spec fn success_parts_ok(parts: Seq<FormattedString>, succs: Seq<Seq<char>>) -> bool {
    if succs.len() == 0 {
        parts.len() == 1 && parts[0].text@ == "None"@ && parts[0].style == Style::Plain
    } else {
        &&& parts.len() == 2 * succs.len() - 1
        &&& forall|p: int|
            #![trigger parts[p]]
            0 <= p < parts.len() ==> (if p % 2 == 0 {
                parts[p].text@ == "- "@ + succs[p / 2] && parts[p].style == Style::Plain
            } else {
                parts[p].text@ == "\n"@ && parts[p].style == Style::Plain
            })
    }
}

/// What `to_detail_from_list` yields for a given stdout and stderr.
pub open spec fn list_detail_ok(r: MessageDetail, out: Seq<char>, err: Seq<char>) -> bool {
    let lines = split_lines(out);
    if all_lines_readable(lines) {
        &&& r matches MessageDetail::Formatted { raw, elements } && raw matches Some(rw) && rw@
            == out && (if err.len() == 0 {
            elements@.len() == 2
        } else {
            elements@.len() == 3 && is_mono_section(elements@[2], "Stderr"@, err)
        }) && (elements@[0] matches DetailElement::Section { title: ft, parts: fp } && ft@
            == "Failed components"@ && failed_parts_ok(fp@, failures_of(lines))) && (
        elements@[1] matches DetailElement::Section { title: st, parts: sp } && st@
            == "Successful components"@ && success_parts_ok(sp@, successes_of(lines)))
    } else {
        &&& r matches MessageDetail::Formatted { raw, elements } && raw matches Some(rw) && rw@
            == "Output from program did not conform to output format. Encountered first issue on line "@
            + dec_rep(first_unreadable(lines) + 1) && elements@.len() == 2 && is_mono_section(
            elements@[0],
            "Received stdout"@,
            out,
        ) && is_mono_section(elements@[1], "Stderr (Not parsed)"@, err)
    }
}

/// Render the failed-components parts.
#[verifier::loop_isolation(false)]
fn render_failed(fails: &Vec<(String, String)>) -> (parts: Vec<FormattedString>)
    ensures
        failed_parts_ok(
            parts@,
            fails@.map_values(|p: (String, String)| (p.0@, p.1@)),
        ),
{
    let ghost fv = fails@.map_values(|p: (String, String)| (p.0@, p.1@));
    let mut parts: Vec<FormattedString> = Vec::new();
    if fails.len() == 0 {
        parts.push(FormattedString::plain(String::from_str("None")));
        return parts;
    }
    let n = fails.len();
    let mut i: usize = 0;
    while i < n
        invariant
            0 <= i <= n,
            n == fails@.len(),
            n > 0,
            parts@.len() == (if i == 0 {
                0int
            } else {
                3 * i - 1
            }),
            forall|p: int|
                #![trigger parts@[p]]
                0 <= p < parts@.len() ==> (if p % 3 == 0 {
                    parts@[p].text@ == "- "@ + fv[p / 3].0 + " "@ && parts@[p].style
                        == Style::Plain
                } else if p % 3 == 1 {
                    parts@[p].text@ == fv[p / 3].1 && parts@[p].style == Style::Monospace
                } else {
                    parts@[p].text@ == "\n"@ && parts@[p].style == Style::Plain
                }),
        decreases n - i,
    {
        if i > 0 {
            parts.push(FormattedString::plain(String::from_str("\n")));
        }
        let mut name = String::from_str("- ");
        name.append(fails[i].0.as_str());
        name.append(" ");
        parts.push(FormattedString::plain(name));
        parts.push(FormattedString::monospace(fails[i].1.clone()));
        i = i + 1;
    }
    parts
}

/// Render the successful-components parts.
#[verifier::loop_isolation(false)]
fn render_successes(succs: &Vec<String>) -> (parts: Vec<FormattedString>)
    ensures
        success_parts_ok(parts@, succs@.map_values(|p: String| p@)),
{
    let ghost sv = succs@.map_values(|p: String| p@);
    let mut parts: Vec<FormattedString> = Vec::new();
    if succs.len() == 0 {
        parts.push(FormattedString::plain(String::from_str("None")));
        return parts;
    }
    let n = succs.len();
    let mut i: usize = 0;
    while i < n
        invariant
            0 <= i <= n,
            n == succs@.len(),
            n > 0,
            parts@.len() == (if i == 0 {
                0int
            } else {
                2 * i - 1
            }),
            forall|p: int|
                #![trigger parts@[p]]
                0 <= p < parts@.len() ==> (if p % 2 == 0 {
                    parts@[p].text@ == "- "@ + sv[p / 2] && parts@[p].style == Style::Plain
                } else {
                    parts@[p].text@ == "\n"@ && parts@[p].style == Style::Plain
                }),
        decreases n - i,
    {
        if i > 0 {
            parts.push(FormattedString::plain(String::from_str("\n")));
        }
        let mut name = String::from_str("- ");
        name.append(succs[i].as_str());
        parts.push(FormattedString::plain(name));
        i = i + 1;
    }
    parts
}

/// The detail reporting a non-conforming stdout, naming the first
/// offending line (counted from one).
fn generate_invalid_format_message(output: &ProgramOutput, problem_line_num: u64) -> (r:
    MessageDetail)
    ensures
        r matches MessageDetail::Formatted { raw, elements } && raw matches Some(rw) && rw@
            == "Output from program did not conform to output format. Encountered first issue on line "@
            + dec_rep(problem_line_num as int) && elements@.len() == 2 && is_mono_section(
            elements@[0],
            "Received stdout"@,
            output.std_out@,
        ) && is_mono_section(elements@[1], "Stderr (Not parsed)"@, output.std_err@),
{
    let mut raw = String::from_str(
        "Output from program did not conform to output format. Encountered first issue on line ",
    );
    let digits = u64_to_string(problem_line_num);
    raw.append(digits.as_str());
    let mut out_parts: Vec<FormattedString> = Vec::new();
    out_parts.push(FormattedString::monospace(String::from_str(output.std_out.as_str())));
    let mut err_parts: Vec<FormattedString> = Vec::new();
    err_parts.push(FormattedString::monospace(String::from_str(output.std_err.as_str())));
    let mut elements: Vec<DetailElement> = Vec::new();
    elements.push(
        DetailElement::Section { title: String::from_str("Received stdout"), parts: out_parts },
    );
    elements.push(
        DetailElement::Section {
            title: String::from_str("Stderr (Not parsed)"),
            parts: err_parts,
        },
    );
    MessageDetail::Formatted { raw: Some(raw), elements }
}


/// Read one stdout line (given by its character range): the outcome
/// flag, the component, and the reason.
#[verifier::loop_isolation(false)]
#[verifier::rlimit(60)]
fn read_list_line(s: &str, pos: usize, line_end: usize) -> (r: Option<(bool, String, String)>)
    requires
        pos <= line_end <= s@.len(),
    ensures
        ({
            let l = s@.subrange(pos as int, line_end as int);
            match r {
                None => line_reading(l) is None,
                Some(t) => line_reading(l) == Some((t.0, t.1@, t.2@)),
            }
        }),
{
    let ghost l = s@.subrange(pos as int, line_end as int);
    let mut c: usize = pos;
    while c < line_end && s.get_char(c) != ':'
        invariant
            pos <= c <= line_end <= s@.len(),
            forall|x: int| pos <= x < c ==> s@[x] != ':',
        decreases line_end - c,
    {
        c = c + 1;
    }
    proof {
        assert forall|x: int| 0 <= x < c - pos implies l[x] != ':' by {
            assert(l[x] == s@[pos + x]);
        }
        if c < line_end {
            assert(l[c - pos] == s@[c as int]);
        }
        lemma_first_colon_is(l, c - pos);
    }
    if c == line_end {
        return None;
    }
    let mut c2: usize = c + 1;
    while c2 < line_end && s.get_char(c2) != ':'
        invariant
            c < c2 <= line_end <= s@.len(),
            forall|x: int| c < x < c2 ==> s@[x] != ':',
        decreases line_end - c2,
    {
        c2 = c2 + 1;
    }
    let ghost rest = l.skip(c - pos + 1);
    proof {
        assert(rest =~= s@.subrange(c as int + 1, line_end as int));
        assert forall|x: int| 0 <= x < c2 - c - 1 implies rest[x] != ':' by {
            assert(rest[x] == s@[c + 1 + x]);
        }
        if c2 < line_end {
            assert(rest[c2 - c - 1] == s@[c2 as int]);
        }
        lemma_first_colon_is(rest, c2 - c - 1);
    }
    let result_str = s.substring_char(c + 1, c2);
    proof {
        assert(result_str@ =~= rest.take(c2 - c - 1));
    }
    let is_success = str_eq(result_str, "success");
    let is_failure = str_eq(result_str, "failure");
    if !is_success && !is_failure {
        return None;
    }
    let component = String::from_str(s.substring_char(pos, c));
    proof {
        assert(component@ =~= l.take(c - pos));
    }
    if is_success {
        let empty = String::new();
        return Some((false, component, empty));
    }
    let reason = if c2 < line_end {
        let rs = String::from_str(s.substring_char(c2 + 1, line_end));
        proof {
            assert(rs@ =~= rest.skip(c2 - c - 1 + 1));
        }
        rs
    } else {
        proof {
            assert(c2 - c - 1 == rest.len());
        }
        String::from_str("No reason provided")
    };
    Some((true, component, reason))
}

/// Read stdout as a list of per-component results and render it: the
/// failures with their reasons, the successes, and stderr when it is
/// not empty; or a report of the first non-conforming line.
#[verifier::loop_isolation(false)]
#[verifier::rlimit(100)]
pub fn to_detail_from_list(output: &ProgramOutput) -> (r: MessageDetail)
    ensures
        list_detail_ok(r, output.std_out@, output.std_err@),
{
    let s = output.std_out.as_str();
    let n = s.unicode_len();
    let mut fails: Vec<(String, String)> = Vec::new();
    let mut succs: Vec<String> = Vec::new();
    let mut pos: usize = 0;
    let mut line_no: usize = 0;
    let ghost mut done: Seq<Seq<char>> = Seq::empty();
    proof {
        assert(s@.skip(0) =~= s@);
        assert(split_lines(s@) =~= done + split_lines(s@.skip(0)));
        assert(fails@.map_values(|p: (String, String)| (p.0@, p.1@)) =~= failures_of(done));
        assert(succs@.map_values(|p: String| p@) =~= successes_of(done));
    }
    while pos < n
        invariant
            0 <= pos <= n,
            n == s@.len(),
            s@ == output.std_out@,
            split_lines(s@) == done + split_lines(s@.skip(pos as int)),
            line_no == done.len(),
            line_no <= pos,
            forall|j: int| 0 <= j < done.len() ==> line_reading(#[trigger] done[j]) is Some,
            fails@.map_values(|p: (String, String)| (p.0@, p.1@)) == failures_of(done),
            succs@.map_values(|p: String| p@) == successes_of(done),
        decreases n - pos,
    {
        let ghost t = s@.skip(pos as int);
        let mut j: usize = pos;
        while j < n && s.get_char(j) != '\n'
            invariant
                pos <= j <= n,
                n == s@.len(),
                forall|x: int| pos <= x < j ==> s@[x] != '\n',
            decreases n - j,
        {
            j = j + 1;
        }
        proof {
            assert forall|x: int| 0 <= x < j - pos implies t[x] != '\n' by {
                assert(t[x] == s@[pos + x]);
            }
            if j < n {
                assert(t[j - pos] == s@[j as int]);
            }
            crate::run_log::lemma_first_nl_is(t, j - pos);
        }
        let mut line_end = j;
        if j > pos && s.get_char(j - 1) == '\r' {
            line_end = j - 1;
        }
        let ghost raw_line = t.take(j - pos);
        let ghost stripped = crate::run_log::strip_cr(raw_line);
        let next_pos = if j < n {
            j + 1
        } else {
            n
        };
        proof {
            assert(raw_line =~= s@.subrange(pos as int, j as int));
            if line_end < j {
                assert(raw_line.last() == s@[j - 1]);
                assert(stripped =~= s@.subrange(pos as int, line_end as int));
            } else {
                assert(stripped == raw_line);
                assert(stripped =~= s@.subrange(pos as int, line_end as int));
            }
            if j < n {
                assert(t.skip(j - pos + 1) =~= s@.skip(next_pos as int));
                assert(split_lines(t) == seq![stripped] + split_lines(s@.skip(next_pos as int)));
            } else {
                assert(t.len() > 0);
                assert(crate::run_log::first_nl(t) == t.len());
                assert(split_lines(t) == seq![stripped]);
                assert(s@.skip(next_pos as int) =~= Seq::<char>::empty());
                assert(split_lines(t) =~= seq![stripped] + split_lines(s@.skip(next_pos as int)));
            }
            assert(split_lines(s@) =~= (done + seq![stripped]) + split_lines(
                s@.skip(next_pos as int),
            ));
        }
        match read_list_line(s, pos, line_end) {
            None => {
                proof {
                    assert(line_reading(stripped) is None);
                    lemma_first_unreadable_is(
                        done + seq![stripped] + split_lines(s@.skip(next_pos as int)),
                        done.len() as int,
                    );
                }
                return generate_invalid_format_message(output, (line_no + 1) as u64);
            },
            Some((is_fail, component, reason)) => {
                proof {
                    assert(line_reading(stripped) == Some((is_fail, component@, reason@)));
                }
                if is_fail {
                    fails.push((component, reason));
                } else {
                    succs.push(component);
                }
            },
        }
        proof {
            assert(done.push(stripped).drop_last() =~= done);
            assert(succs@.map_values(|p: String| p@) =~= successes_of(done.push(stripped)));
            assert(fails@.map_values(|p: (String, String)| (p.0@, p.1@)) =~= failures_of(
                done.push(stripped),
            ));
            done = done.push(stripped);
        }
        line_no = line_no + 1;
        pos = next_pos;
    }
    proof {
        assert(s@.skip(n as int) =~= Seq::<char>::empty());
        assert(split_lines(s@) =~= done);
        assert(all_lines_readable(split_lines(s@)));
    }
    let failed_parts = render_failed(&fails);
    let success_parts = render_successes(&succs);
    let mut elements: Vec<DetailElement> = Vec::new();
    elements.push(
        DetailElement::Section {
            title: String::from_str("Failed components"),
            parts: failed_parts,
        },
    );
    elements.push(
        DetailElement::Section {
            title: String::from_str("Successful components"),
            parts: success_parts,
        },
    );
    if output.std_err.as_str().unicode_len() > 0 {
        let mut err_parts: Vec<FormattedString> = Vec::new();
        err_parts.push(FormattedString::monospace(String::from_str(output.std_err.as_str())));
        elements.push(
            DetailElement::Section { title: String::from_str("Stderr"), parts: err_parts },
        );
    }
    MessageDetail::Formatted {
        raw: Some(String::from_str(output.std_out.as_str())),
        elements,
    }
}

} // verus!
