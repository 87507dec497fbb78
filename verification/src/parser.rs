//! The output parser: extracts prefixed sections from free-form backend text
//! and maps them to routed peer messages or privileged runtime commands,
//! under sender-role authorization.

use vstd::prelude::*;

use crate::message::{AgentMessage, MessageKind};
use crate::roles::{wf_agent_id, AgentId, AgentRole};
use crate::runtime::{RuntimeCommand, RuntimeCommandView};
use crate::text::{chars_to_string, copy_range, digit_char, digit_val, is_digit, parse_u8_dec, scan_ws_end,
    scan_ws_start, starts_with_at, starts_with_at_exec, str_to_chars, trim, trim_end, trim_start,
    u8_dec_spec, ws_prefix, ws_suffix};

verus! {

/// The recognized section keywords, colon-terminated.
#[derive(Debug, Clone, Copy, PartialEq, Eq, Structural)]
pub enum Prefix {
    Crew,
    Relieve,
    Task,
    Approved,
    Rejected,
    Complete,
    Blocked,
    Interrupt,
    Evaluation,
    Observation,
}

/// The keyword text of a prefix.
pub open spec fn prefix_text(p: Prefix) -> Seq<char> {
    match p {
        Prefix::Crew => "CREW:"@,
        Prefix::Relieve => "RELIEVE:"@,
        Prefix::Task => "TASK:"@,
        Prefix::Approved => "APPROVED:"@,
        Prefix::Rejected => "REJECTED:"@,
        Prefix::Complete => "COMPLETE:"@,
        Prefix::Blocked => "BLOCKED:"@,
        Prefix::Interrupt => "INTERRUPT:"@,
        Prefix::Evaluation => "EVALUATION:"@,
        Prefix::Observation => "OBSERVATION:"@,
    }
}

/// Whether a prefix consumes only the remainder of its own line.
pub open spec fn is_single_line(p: Prefix) -> bool {
    p is Crew || p is Relieve
}

/// The prefix that the whitespace-stripped line `t` begins with, if any.
pub open spec fn recognized_prefix_spec(t: Seq<char>) -> Option<Prefix> {
    if starts_with_at(t, 0, "CREW:"@) {
        Some(Prefix::Crew)
    } else if starts_with_at(t, 0, "RELIEVE:"@) {
        Some(Prefix::Relieve)
    } else if starts_with_at(t, 0, "TASK:"@) {
        Some(Prefix::Task)
    } else if starts_with_at(t, 0, "APPROVED:"@) {
        Some(Prefix::Approved)
    } else if starts_with_at(t, 0, "REJECTED:"@) {
        Some(Prefix::Rejected)
    } else if starts_with_at(t, 0, "COMPLETE:"@) {
        Some(Prefix::Complete)
    } else if starts_with_at(t, 0, "BLOCKED:"@) {
        Some(Prefix::Blocked)
    } else if starts_with_at(t, 0, "INTERRUPT:"@) {
        Some(Prefix::Interrupt)
    } else if starts_with_at(t, 0, "EVALUATION:"@) {
        Some(Prefix::Evaluation)
    } else if starts_with_at(t, 0, "OBSERVATION:"@) {
        Some(Prefix::Observation)
    } else {
        None
    }
}

/// Finds the prefix the character vector begins with, if any.
pub fn recognized_prefix(t: &Vec<char>) -> (r: Option<Prefix>)
    ensures
        r == recognized_prefix_spec(t@),
{
    if starts_with_at_exec(t, 0, &str_to_chars("CREW:")) {
        Some(Prefix::Crew)
    } else if starts_with_at_exec(t, 0, &str_to_chars("RELIEVE:")) {
        Some(Prefix::Relieve)
    } else if starts_with_at_exec(t, 0, &str_to_chars("TASK:")) {
        Some(Prefix::Task)
    } else if starts_with_at_exec(t, 0, &str_to_chars("APPROVED:")) {
        Some(Prefix::Approved)
    } else if starts_with_at_exec(t, 0, &str_to_chars("REJECTED:")) {
        Some(Prefix::Rejected)
    } else if starts_with_at_exec(t, 0, &str_to_chars("COMPLETE:")) {
        Some(Prefix::Complete)
    } else if starts_with_at_exec(t, 0, &str_to_chars("BLOCKED:")) {
        Some(Prefix::Blocked)
    } else if starts_with_at_exec(t, 0, &str_to_chars("INTERRUPT:")) {
        Some(Prefix::Interrupt)
    } else if starts_with_at_exec(t, 0, &str_to_chars("EVALUATION:")) {
        Some(Prefix::Evaluation)
    } else if starts_with_at_exec(t, 0, &str_to_chars("OBSERVATION:")) {
        Some(Prefix::Observation)
    } else {
        None
    }
}

/// The length of the first line of `s`: the distance to the first newline,
/// or the whole length if there is none.
pub open spec fn line_len(s: Seq<char>) -> nat
    decreases s.len(),
{
    if s.len() == 0 {
        0
    } else if s[0] == '\n' {
        0
    } else {
        (1 + line_len(s.subrange(1, s.len() as int))) as nat
    }
}

/// A line with a trailing carriage return has it removed.
pub open spec fn strip_cr(l: Seq<char>) -> Seq<char> {
    if l.len() > 0 && l[l.len() - 1] == '\r' {
        l.subrange(0, l.len() - 1)
    } else {
        l
    }
}

/// The lines of `s`, split at newlines, each stripped of a trailing carriage
/// return; a final line ending is optional, as with `str::lines`.
pub open spec fn split_lines(s: Seq<char>) -> Seq<Seq<char>>
    decreases s.len(),
{
    if s.len() == 0 {
        Seq::<Seq<char>>::empty()
    } else {
        let k = line_len(s) as int;
        if k >= s.len() {
            seq![strip_cr(s)]
        } else {
            seq![strip_cr(s.subrange(0, k))] + split_lines(s.subrange(k + 1, s.len() as int))
        }
    }
}

/// A forward scan that stops at the first newline finds the line length.
proof fn lemma_line_len_of(s: Seq<char>, k: int)
    requires
        0 <= k <= s.len(),
        forall|j: int| 0 <= j < k ==> s[j] != '\n',
        k < s.len() ==> s[k] == '\n',
    ensures
        line_len(s) == k,
    decreases s.len(),
{
    if s.len() > 0 && s[0] != '\n' {
        lemma_line_len_of(s.subrange(1, s.len() as int), k - 1);
    }
}

/// The views of a vector of lines.
pub open spec fn lines_views(ls: Seq<Vec<char>>) -> Seq<Seq<char>> {
    ls.map_values(|l: Vec<char>| l@)
}

/// Splits a character vector into its lines.
pub fn split_lines_exec(v: &Vec<char>) -> (r: Vec<Vec<char>>)
    ensures
        lines_views(r@) == split_lines(v@),
{
    let mut r: Vec<Vec<char>> = Vec::new();
    let mut pos: usize = 0;
    let n: usize = v.len();
    proof {
        assert(v@.subrange(0, v@.len() as int) =~= v@);
        assert(lines_views(r@) + split_lines(v@) =~= split_lines(v@));
    }
    while pos < n
        invariant
            pos <= n == v@.len(),
            split_lines(v@) == lines_views(r@) + split_lines(
                v@.subrange(pos as int, v@.len() as int),
            ),
        decreases v@.len() - pos,
    {
        let ghost s = v@.subrange(pos as int, v@.len() as int);
        let mut k: usize = pos;
        while k < n && v[k] != '\n'
            invariant
                pos <= k <= n == v@.len(),
                forall|j: int| pos <= j < k ==> v@[j] != '\n',
            decreases v@.len() - k,
        {
            k = k + 1;
        }
        proof {
            lemma_line_len_of(s, k - pos);
        }
        let end: usize = if k > pos && v[k - 1] == '\r' {
            k - 1
        } else {
            k
        };
        let line = copy_range(v, pos, end);
        proof {
            assert(s.subrange(0, k - pos) =~= v@.subrange(pos as int, k as int));
            if k > pos && v@[k as int - 1] == '\r' {
                assert(line@ =~= strip_cr(s.subrange(0, k - pos)));
            } else {
                assert(line@ =~= strip_cr(s.subrange(0, k - pos)));
            }
        }
        r.push(line);
        if k < n {
            proof {
                let rest = s.subrange(k - pos + 1, s.len() as int);
                assert(rest =~= v@.subrange(k + 1 as int, v@.len() as int));
                assert(split_lines(s) == seq![strip_cr(s.subrange(0, k - pos))] + split_lines(
                    rest,
                ));
                assert(lines_views(r@) =~= lines_views(r@.drop_last()) + seq![line@]);
                assert(split_lines(v@) =~= lines_views(r@) + split_lines(
                    v@.subrange(k + 1 as int, v@.len() as int),
                ));
            }
            pos = k + 1;
        } else {
            proof {
                assert(s.subrange(0, s.len() as int) =~= s);
                assert(split_lines(s) == seq![strip_cr(s)]);
                assert(strip_cr(s) == strip_cr(s.subrange(0, k - pos)));
                assert(lines_views(r@) =~= lines_views(r@.drop_last()) + seq![line@]);
                assert(v@.subrange(k as int, v@.len() as int).len() == 0);
                assert(split_lines(v@) =~= lines_views(r@) + split_lines(
                    v@.subrange(k as int, v@.len() as int),
                ));
            }
            pos = k;
        }
    }
    proof {
        assert(v@.subrange(pos as int, v@.len() as int).len() == 0);
        assert(split_lines(v@.subrange(pos as int, v@.len() as int)).len() == 0);
        assert(lines_views(r@) =~= split_lines(v@));
    }
    r
}

/// The number of lines from `i` on, none of which starts a section.
pub open spec fn next_prefix_skip(lines: Seq<Seq<char>>, i: int) -> nat
    decreases lines.len() - i when 0 <= i <= lines.len()
{
    if i >= lines.len() {
        0
    } else if recognized_prefix_spec(trim_start(lines[i])) is Some {
        0
    } else {
        (1 + next_prefix_skip(lines, i + 1)) as nat
    }
}

/// A scan that stops at the first section-starting line finds the skip count.
proof fn lemma_next_prefix_skip_of(lines: Seq<Seq<char>>, i: int, j: int)
    requires
        0 <= i <= j <= lines.len(),
        forall|m: int| i <= m < j ==> recognized_prefix_spec(trim_start(#[trigger] lines[m])) is None,
        j < lines.len() ==> recognized_prefix_spec(trim_start(lines[j])) is Some,
    ensures
        next_prefix_skip(lines, i) == j - i,
    decreases j - i,
{
    if i < j {
        lemma_next_prefix_skip_of(lines, i + 1, j);
    }
}

/// The first-line content followed by the raw continuation lines between
/// `from` and `to`, each introduced by a newline.
pub open spec fn join_cont(acc: Seq<char>, lines: Seq<Seq<char>>, from: int, to: int) -> Seq<char>
    decreases to - from,
{
    if from >= to || from < 0 || to > lines.len() {
        acc
    } else {
        join_cont(acc + seq!['\n'] + lines[from], lines, from + 1, to)
    }
}

/// Appending one more continuation line extends the joined content.
proof fn lemma_join_snoc(acc: Seq<char>, lines: Seq<Seq<char>>, from: int, to: int)
    requires
        0 <= from <= to < lines.len(),
    ensures
        join_cont(acc, lines, from, to + 1) == join_cont(acc, lines, from, to) + seq!['\n']
            + lines[to],
    decreases to - from,
{
    if from < to {
        lemma_join_snoc(acc + seq!['\n'] + lines[from], lines, from + 1, to);
    } else {
        let acc2 = acc + seq!['\n'] + lines[from];
        assert(join_cont(acc, lines, from, to + 1) == join_cont(acc2, lines, from + 1, to + 1));
        assert(join_cont(acc2, lines, from + 1, to + 1) == acc2);
        assert(join_cont(acc, lines, from, to) == acc);
    }
}

/// The sections of the text from line `i` on: each starts at a line bearing a
/// recognized keyword; single-line keywords take the rest of their line, all
/// others run to the next keyword line or the end, trailing whitespace
/// trimmed.
pub open spec fn sections_from(lines: Seq<Seq<char>>, i: int) -> Seq<(Prefix, Seq<char>)>
    decreases lines.len() - i when 0 <= i <= lines.len()
{
    if i >= lines.len() {
        Seq::<(Prefix, Seq<char>)>::empty()
    } else {
        let t = trim_start(lines[i]);
        match recognized_prefix_spec(t) {
            None => sections_from(lines, i + 1),
            Some(p) => {
                let first = trim(t.subrange(prefix_text(p).len() as int, t.len() as int));
                if is_single_line(p) {
                    seq![(p, first)] + sections_from(lines, i + 1)
                } else {
                    let j0 = i + 1 + next_prefix_skip(lines, i + 1) as int;
                    let j = if j0 > lines.len() {
                        lines.len() as int
                    } else {
                        j0
                    };
                    let content = trim_end(join_cont(first, lines, i + 1, j));
                    seq![(p, content)] + sections_from(lines, j)
                }
            },
        }
    }
}

/// The sections of a whole text.
pub open spec fn sections_of(text: Seq<char>) -> Seq<(Prefix, Seq<char>)> {
    sections_from(split_lines(text), 0)
}

/// The views of extracted sections.
pub open spec fn sec_views(s: Seq<(Prefix, Vec<char>)>) -> Seq<(Prefix, Seq<char>)> {
    s.map_values(|pc: (Prefix, Vec<char>)| (pc.0, pc.1@))
}

/// The keyword characters of a prefix.
fn prefix_pattern(p: Prefix) -> (r: Vec<char>)
    ensures
        r@ == prefix_text(p),
{
    match p {
        Prefix::Crew => str_to_chars("CREW:"),
        Prefix::Relieve => str_to_chars("RELIEVE:"),
        Prefix::Task => str_to_chars("TASK:"),
        Prefix::Approved => str_to_chars("APPROVED:"),
        Prefix::Rejected => str_to_chars("REJECTED:"),
        Prefix::Complete => str_to_chars("COMPLETE:"),
        Prefix::Blocked => str_to_chars("BLOCKED:"),
        Prefix::Interrupt => str_to_chars("INTERRUPT:"),
        Prefix::Evaluation => str_to_chars("EVALUATION:"),
        Prefix::Observation => str_to_chars("OBSERVATION:"),
    }
}

/// Whether this prefix consumes only the rest of its own line.
pub fn single_line_prefix(p: Prefix) -> (r: bool)
    ensures
        r == is_single_line(p),
{
    matches!(p, Prefix::Crew | Prefix::Relieve)
}

/// The bounds of `trim` applied to the characters of `v` between `lo` and
/// `hi`.
fn trim_range(v: &Vec<char>, lo: usize, hi: usize) -> (r: (usize, usize))
    requires
        lo <= hi <= v@.len(),
    ensures
        lo <= r.0 <= r.1 <= hi,
        v@.subrange(r.0 as int, r.1 as int) == trim(v@.subrange(lo as int, hi as int)),
{
    let a = scan_ws_start(v, lo, hi);
    let b = scan_ws_end(v, a, hi);
    proof {
        let s = v@.subrange(lo as int, hi as int);
        let ts = trim_start(s);
        assert(ts =~= v@.subrange(a as int, hi as int));
        assert(ws_suffix(ts) == hi - b);
        assert(trim(s) == ts.subrange(0, ts.len() - ws_suffix(ts)));
        assert(v@.subrange(a as int, b as int) =~= ts.subrange(0, b - a as int));
    }
    (a, b)
}

/// Extracts the structured sections from the lines of an output block.
pub fn extract_sections(lines: &Vec<Vec<char>>) -> (r: Vec<(Prefix, Vec<char>)>)
    ensures
        sec_views(r@) == sections_from(lines_views(lines@), 0),
{
    let ghost lv = lines_views(lines@);
    let mut r: Vec<(Prefix, Vec<char>)> = Vec::new();
    let mut i: usize = 0;
    let n: usize = lines.len();
    proof {
        assert(sec_views(r@) + sections_from(lv, 0) =~= sections_from(lv, 0));
    }
    while i < n
        invariant
            i <= n == lines@.len(),
            lv == lines_views(lines@),
            sections_from(lv, 0) == sec_views(r@) + sections_from(lv, i as int),
        decreases n - i,
    {
        let li: &Vec<char> = &lines[i];
        let st = scan_ws_start(li, 0, li.len());
        let t = copy_range(li, st, li.len());
        proof {
            assert(li@.subrange(0, li@.len() as int) =~= li@);
            assert(lv[i as int] == li@);
            assert(t@ =~= trim_start(lv[i as int]));
        }
        match recognized_prefix(&t) {
            None => {
                proof {
                    assert(sections_from(lv, i as int) == sections_from(lv, i + 1 as int));
                }
                i = i + 1;
            },
            Some(p) => {
                let pat = prefix_pattern(p);
                let plen = pat.len();
                proof {
                    assert(starts_with_at(t@, 0, prefix_text(p)));
                }
                let (fs, fe) = trim_range(&t, plen, t.len());
                let first = copy_range(&t, fs, fe);
                let ghost first_spec = trim(
                    trim_start(lv[i as int]).subrange(
                        prefix_text(p).len() as int,
                        trim_start(lv[i as int]).len() as int,
                    ),
                );
                proof {
                    assert(t@.subrange(plen as int, t@.len() as int) =~= trim_start(
                        lv[i as int],
                    ).subrange(prefix_text(p).len() as int, trim_start(lv[i as int]).len() as int));
                    assert(first@ == first_spec);
                }
                if single_line_prefix(p) {
                    r.push((p, first));
                    proof {
                        assert(sections_from(lv, i as int) == seq![(p, first_spec)]
                            + sections_from(lv, i + 1 as int));
                        assert(sec_views(r@) =~= sec_views(r@.drop_last()) + seq![(p, first_spec)]);
                        assert(sections_from(lv, 0) =~= sec_views(r@) + sections_from(
                            lv,
                            i + 1 as int,
                        ));
                    }
                    i = i + 1;
                } else {
                    let mut content = first;
                    let mut j: usize = i + 1;
                    let mut stop = false;
                    while j < n && !stop
                        invariant
                            i + 1 <= j <= n == lines@.len(),
                            lv == lines_views(lines@),
                            content@ == join_cont(first_spec, lv, i + 1 as int, j as int),
                            forall|m: int|
                                i + 1 <= m < j ==> recognized_prefix_spec(
                                    trim_start(#[trigger] lv[m]),
                                ) is None,
                            stop ==> j < n && recognized_prefix_spec(
                                trim_start(lv[j as int]),
                            ) is Some,
                        decreases n - j + (if stop { 0int } else { 1int }),
                    {
                        let lj: &Vec<char> = &lines[j];
                        let jst = scan_ws_start(lj, 0, lj.len());
                        let tj = copy_range(lj, jst, lj.len());
                        proof {
                            assert(lj@.subrange(0, lj@.len() as int) =~= lj@);
                            assert(lv[j as int] == lj@);
                            assert(tj@ =~= trim_start(lv[j as int]));
                        }
                        if recognized_prefix(&tj).is_some() {
                            stop = true;
                        } else {
                            content.push('\n');
                            content.extend_from_slice(lines[j].as_slice());
                            proof {
                                lemma_join_snoc(first_spec, lv, i + 1 as int, j as int);
                                assert(content@ =~= join_cont(
                                    first_spec,
                                    lv,
                                    i + 1 as int,
                                    j + 1 as int,
                                ));
                            }
                            j = j + 1;
                        }
                    }
                    proof {
                        lemma_next_prefix_skip_of(lv, i + 1 as int, j as int);
                    }
                    let ce = scan_ws_end(&content, 0, content.len());
                    content.truncate(ce);
                    let ghost content_spec = trim_end(
                        join_cont(first_spec, lv, i + 1 as int, j as int),
                    );
                    proof {
                        let jc = join_cont(first_spec, lv, i + 1 as int, j as int);
                        assert(content@ =~= trim_end(jc)) by {
                            assert(jc.subrange(0, jc.len() as int) =~= jc);
                            assert(content@ =~= jc.subrange(0, ce as int));
                        }
                    }
                    r.push((p, content));
                    proof {
                        assert(sections_from(lv, i as int) == seq![(p, content_spec)]
                            + sections_from(lv, j as int));
                        assert(sec_views(r@) =~= sec_views(r@.drop_last()) + seq![(p, content_spec)]);
                        assert(sections_from(lv, 0) =~= sec_views(r@) + sections_from(
                            lv,
                            j as int,
                        ));
                    }
                    i = j;
                }
            },
        }
    }
    proof {
        assert(sections_from(lv, n as int).len() == 0);
        assert(sec_views(r@) =~= sections_from(lv, 0));
    }
    r
}

/// Result of parsing one section of agent output.
#[derive(Debug)]
pub enum ParsedOutput {
    /// Route a message to another agent.
    Message(AgentMessage),
    /// Send a command to the runtime.
    Command(RuntimeCommand),
}

/// The mathematical shape of a parsed output. A routed message carries no
/// identifier here: the parser draws a fresh random one.
pub ghost enum OutputSpec {
    Message { from: AgentId, to: AgentId, kind: MessageKind, content: Seq<char> },
    Command(RuntimeCommandView),
}

/// Whether the parsed output `o` has the shape `s`, its message identifier
/// aside.
pub open spec fn matches_output(o: ParsedOutput, s: OutputSpec) -> bool {
    match o {
        ParsedOutput::Message(m) => s matches OutputSpec::Message { from, to, kind, content }
            && m.from == from && m.to == to && m.kind == kind && m.content@ == content
            && m.task_id is None,
        ParsedOutput::Command(c) => s matches OutputSpec::Command(cv) && c@ == cv,
    }
}

/// The developer a section beginning `developer-<digit>` addresses;
/// anything else falls back to developer zero.
pub open spec fn dev_target(content: Seq<char>) -> AgentId {
    if starts_with_at(content, 0, "developer-"@) && content.len() > "developer-"@.len()
        && is_digit(content["developer-"@.len() as int]) {
        AgentId {
            role: AgentRole::Developer,
            index: digit_val(content["developer-"@.len() as int]) as u8,
        }
    } else {
        AgentId { role: AgentRole::Developer, index: 0 }
    }
}

/// Resolves the developer a section addresses.
pub fn parse_developer_target(content: &Vec<char>) -> (r: AgentId)
    ensures
        r == dev_target(content@),
{
    let pat = str_to_chars("developer-");
    if starts_with_at_exec(content, 0, &pat) && content.len() > pat.len() {
        let c = content[pat.len()];
        if digit_char(c) {
            let d: u8 = (c as u32 - 48) as u8;
            return AgentId { role: AgentRole::Developer, index: d };
        }
    }
    AgentId { role: AgentRole::Developer, index: 0 }
}

/// The output one section maps to, per the routing table: the from-role
/// column is an authorization gate, and a section an unauthorized role
/// produced maps to nothing.
pub open spec fn parse_section_spec(from: AgentId, p: Prefix, content: Seq<char>) -> Option<
    OutputSpec,
> {
    match p {
        Prefix::Crew => if from.role is Manager {
            match u8_dec_spec(trim(content)) {
                Some(n) => Some(
                    OutputSpec::Command(RuntimeCommandView::SetCrewSize { count: n }),
                ),
                None => None,
            }
        } else {
            None
        },
        Prefix::Relieve => if from.role is Scorer {
            Some(OutputSpec::Command(RuntimeCommandView::RelieveManager { reason: content }))
        } else {
            None
        },
        Prefix::Task => Some(
            OutputSpec::Message {
                from,
                to: AgentId { role: AgentRole::Architect, index: 0 },
                kind: MessageKind::TaskAssignment,
                content,
            },
        ),
        Prefix::Approved => Some(
            OutputSpec::Message {
                from,
                to: dev_target(content),
                kind: MessageKind::TaskAssignment,
                content,
            },
        ),
        Prefix::Rejected => Some(
            OutputSpec::Message {
                from,
                to: AgentId { role: AgentRole::Manager, index: 0 },
                kind: MessageKind::ArchitectReview,
                content,
            },
        ),
        Prefix::Complete => Some(
            OutputSpec::Message {
                from,
                to: AgentId { role: AgentRole::Manager, index: 0 },
                kind: MessageKind::TaskComplete,
                content,
            },
        ),
        Prefix::Blocked => Some(
            OutputSpec::Message {
                from,
                to: AgentId { role: AgentRole::Manager, index: 0 },
                kind: MessageKind::TaskGiveUp,
                content,
            },
        ),
        Prefix::Interrupt => if from.role is Architect {
            Some(
                OutputSpec::Message {
                    from,
                    to: AgentId { role: AgentRole::Developer, index: 0 },
                    kind: MessageKind::Interrupt,
                    content,
                },
            )
        } else {
            None
        },
        Prefix::Evaluation => None,
        Prefix::Observation => None,
    }
}

/// Maps one extracted section to its output, if its sender may produce it.
pub fn parse_section(from: &AgentId, p: Prefix, content: &Vec<char>) -> (r: Option<ParsedOutput>)
    ensures
        (r is Some) == (parse_section_spec(*from, p, content@) is Some),
        r matches Some(po) ==> matches_output(po, parse_section_spec(*from, p, content@).unwrap()),
{
    match p {
        Prefix::Crew => {
            if matches!(from.role, AgentRole::Manager) {
                let (a, b) = trim_range(content, 0, content.len());
                proof {
                    assert(content@.subrange(0, content@.len() as int) =~= content@);
                }
                match parse_u8_dec(content, a, b) {
                    Some(n) => Some(
                        ParsedOutput::Command(RuntimeCommand::SetCrewSize { count: n }),
                    ),
                    None => None,
                }
            } else {
                None
            }
        },
        Prefix::Relieve => {
            if matches!(from.role, AgentRole::Scorer) {
                Some(
                    ParsedOutput::Command(
                        RuntimeCommand::RelieveManager { reason: chars_to_string(content) },
                    ),
                )
            } else {
                None
            }
        },
        Prefix::Task => Some(
            ParsedOutput::Message(
                AgentMessage::new(
                    *from,
                    AgentId::new_singleton(AgentRole::Architect),
                    MessageKind::TaskAssignment,
                    chars_to_string(content),
                ),
            ),
        ),
        Prefix::Approved => Some(
            ParsedOutput::Message(
                AgentMessage::new(
                    *from,
                    parse_developer_target(content),
                    MessageKind::TaskAssignment,
                    chars_to_string(content),
                ),
            ),
        ),
        Prefix::Rejected => Some(
            ParsedOutput::Message(
                AgentMessage::new(
                    *from,
                    AgentId::new_singleton(AgentRole::Manager),
                    MessageKind::ArchitectReview,
                    chars_to_string(content),
                ),
            ),
        ),
        Prefix::Complete => Some(
            ParsedOutput::Message(
                AgentMessage::new(
                    *from,
                    AgentId::new_singleton(AgentRole::Manager),
                    MessageKind::TaskComplete,
                    chars_to_string(content),
                ),
            ),
        ),
        Prefix::Blocked => Some(
            ParsedOutput::Message(
                AgentMessage::new(
                    *from,
                    AgentId::new_singleton(AgentRole::Manager),
                    MessageKind::TaskGiveUp,
                    chars_to_string(content),
                ),
            ),
        ),
        Prefix::Interrupt => {
            if matches!(from.role, AgentRole::Architect) {
                Some(
                    ParsedOutput::Message(
                        AgentMessage::new(
                            *from,
                            AgentId::new_developer(0),
                            MessageKind::Interrupt,
                            chars_to_string(content),
                        ),
                    ),
                )
            } else {
                None
            }
        },
        Prefix::Evaluation => None,
        Prefix::Observation => None,
    }
}

/// The outputs of the sections from `k` on, in order of appearance.
pub open spec fn outputs_from(from: AgentId, secs: Seq<(Prefix, Seq<char>)>, k: int) -> Seq<
    OutputSpec,
>
    decreases secs.len() - k when 0 <= k <= secs.len()
{
    if k >= secs.len() {
        Seq::<OutputSpec>::empty()
    } else {
        match parse_section_spec(from, secs[k].0, secs[k].1) {
            Some(o) => seq![o] + outputs_from(from, secs, k + 1),
            None => outputs_from(from, secs, k + 1),
        }
    }
}

/// Everything a text block maps to, in order of appearance.
pub open spec fn parse_output_spec(from: AgentId, text: Seq<char>) -> Seq<OutputSpec> {
    outputs_from(from, sections_of(text), 0)
}

/// Parses a block of agent output into routed messages and runtime commands,
/// in the order their sections appear.
pub fn parse_agent_output(from: &AgentId, text: &str) -> (r: Vec<ParsedOutput>)
    ensures
        r@.len() == parse_output_spec(*from, text@).len(),
        forall|i: int|
            0 <= i < r@.len() ==> matches_output(
                #[trigger] r@[i],
                parse_output_spec(*from, text@)[i],
            ),
{
    let chars = str_to_chars(text);
    let lines = split_lines_exec(&chars);
    let secs = extract_sections(&lines);
    let ghost sv = sec_views(secs@);
    let ghost mut done: Seq<OutputSpec> = Seq::empty();
    let mut r: Vec<ParsedOutput> = Vec::new();
    let mut k: usize = 0;
    proof {
        assert(sections_of(text@) == sv);
        assert(done + outputs_from(*from, sv, 0) =~= outputs_from(*from, sv, 0));
    }
    while k < secs.len()
        invariant
            k <= secs@.len(),
            sv == sec_views(secs@),
            outputs_from(*from, sv, 0) == done + outputs_from(*from, sv, k as int),
            done.len() == r@.len(),
            forall|i: int| 0 <= i < r@.len() ==> matches_output(#[trigger] r@[i], done[i]),
        decreases secs@.len() - k,
    {
        let sec = &secs[k];
        let po = parse_section(from, sec.0, &sec.1);
        proof {
            assert(sv[k as int] == (sec.0, sec.1@));
        }
        match po {
            Some(o) => {
                let ghost os = parse_section_spec(*from, sec.0, sec.1@).unwrap();
                r.push(o);
                proof {
                    assert(outputs_from(*from, sv, k as int) == seq![os] + outputs_from(
                        *from,
                        sv,
                        k + 1 as int,
                    ));
                    done = done + seq![os];
                    assert(outputs_from(*from, sv, 0) =~= done + outputs_from(
                        *from,
                        sv,
                        k + 1 as int,
                    ));
                }
            },
            None => {
                proof {
                    assert(outputs_from(*from, sv, k as int) == outputs_from(
                        *from,
                        sv,
                        k + 1 as int,
                    ));
                }
            },
        }
        k = k + 1;
    }
    proof {
        assert(outputs_from(*from, sv, secs@.len() as int).len() == 0);
        assert(outputs_from(*from, sv, 0) =~= done);
    }
    r
}

/// What holds of every output the parser can produce: a routed message names
/// its real sender, addresses a well-formed identity consistent with the
/// routing table, and a runtime command only arises from the role the table
/// authorizes.
pub open spec fn output_prop(from: AgentId, o: OutputSpec) -> bool {
    match o {
        OutputSpec::Message { from: f, to, kind, content } => {
            &&& f == from
            &&& wf_agent_id(to)
            &&& message_route_ok(from, to, kind)
        },
        OutputSpec::Command(c) => {
            &&& (c is SetCrewSize ==> from.role is Manager)
            &&& (c is RelieveManager ==> from.role is Scorer)
            &&& !(c is TaskUpdate)
        },
    }
}

/// The kinds and targets the routing table can pair: task assignments go to
/// the architect or a developer picked by a single digit, completion reports
/// and reviews go to the manager, and interrupts go to developer zero from
/// the architect alone.
pub open spec fn message_route_ok(from: AgentId, to: AgentId, kind: MessageKind) -> bool {
    match kind {
        MessageKind::TaskAssignment => (to == (AgentId { role: AgentRole::Architect, index: 0 }))
            || (to.role is Developer && to.index <= 9),
        MessageKind::TaskComplete => to == (AgentId { role: AgentRole::Manager, index: 0 }),
        MessageKind::TaskGiveUp => to == (AgentId { role: AgentRole::Manager, index: 0 }),
        MessageKind::ArchitectReview => to == (AgentId { role: AgentRole::Manager, index: 0 }),
        MessageKind::Interrupt => to == (AgentId { role: AgentRole::Developer, index: 0 })
            && from.role is Architect,
        _ => false,
    }
}

/// Every output of the sections from `k` on satisfies [`output_prop`].
proof fn lemma_outputs_props(from: AgentId, secs: Seq<(Prefix, Seq<char>)>, k: int)
    requires
        0 <= k <= secs.len(),
    ensures
        forall|i: int|
            0 <= i < outputs_from(from, secs, k).len() ==> output_prop(
                from,
                #[trigger] outputs_from(from, secs, k)[i],
            ),
    decreases secs.len() - k,
{
    if k < secs.len() {
        lemma_outputs_props(from, secs, k + 1);
        match parse_section_spec(from, secs[k].0, secs[k].1) {
            Some(o) => {
                assert(output_prop(from, o));
                assert(outputs_from(from, secs, k) == seq![o] + outputs_from(from, secs, k + 1));
            },
            None => {},
        }
    }
}

/// Every message the parser produces is addressed to a well-formed agent
/// identity, names its real sender, and carries the kind the routing table
/// fixes for its section.
pub proof fn lemma_parser_messages_well_routed(from: AgentId, text: Seq<char>)
    ensures
        forall|i: int|
            0 <= i < parse_output_spec(from, text).len() ==> ((#[trigger] parse_output_spec(
                from,
                text,
            )[i]) matches OutputSpec::Message { from: f, to, kind, .. } ==> f == from
                && wf_agent_id(to) && message_route_ok(from, to, kind)),
{
    lemma_outputs_props(from, sections_of(text), 0);
}

/// The parser never emits a runtime command for a prefix whose required
/// sender role does not match: a crew resize only from the manager, a
/// relieve only from the scorer, and never a task update.
pub proof fn lemma_parser_commands_authorized(from: AgentId, text: Seq<char>)
    ensures
        forall|i: int|
            0 <= i < parse_output_spec(from, text).len() ==> ((#[trigger] parse_output_spec(
                from,
                text,
            )[i]) matches OutputSpec::Command(c) ==> (c is SetCrewSize ==> from.role is Manager)
                && (c is RelieveManager ==> from.role is Scorer) && !(c is TaskUpdate)),
{
    lemma_outputs_props(from, sections_of(text), 0);
}

} // verus!
