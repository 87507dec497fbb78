//! The backend adapter's pure half: the normalized event type, the child
//! process's command line and input line, and the reader that turns one
//! line of the child's output into an event.

use vstd::prelude::*;

use crate::codec::{esc_str, unesc_at, unesc_exec};
use crate::text::{chars_to_string, is_ws, scan_ws_start, str_to_chars, ws_prefix};

verus! {

/// Output from the assistant backend, normalized across providers.
#[derive(Debug, Clone)]
pub enum AgentOutput {
    /// Text content from the assistant; the only variant fed to the parser.
    Text(String),
    /// The assistant is using a tool; informational. The input is carried as
    /// raw JSON text.
    ToolUse { id: String, name: String, input: String },
    /// Tool execution result; informational.
    ToolResult { id: String, output: String, is_error: bool },
    /// Final result: the assistant has completed.
    Done { text: Option<String>, is_error: bool, session_id: Option<String> },
    /// Error from the backend; terminal.
    Error(String),
    /// System/initialization message; informational.
    System { session_id: Option<String> },
}

/// The mathematical shape of an [`AgentOutput`].
pub ghost enum AgentOutputView {
    Text(Seq<char>),
    ToolUse { id: Seq<char>, name: Seq<char>, input: Seq<char> },
    ToolResult { id: Seq<char>, output: Seq<char>, is_error: bool },
    Done { text: Option<Seq<char>>, is_error: bool, session_id: Option<Seq<char>> },
    Error(Seq<char>),
    System { session_id: Option<Seq<char>> },
}

/// The view of an optional string.
pub open spec fn opt_view(o: Option<String>) -> Option<Seq<char>> {
    match o {
        None => None,
        Some(s) => Some(s@),
    }
}

impl View for AgentOutput {
    type V = AgentOutputView;

    open spec fn view(&self) -> AgentOutputView {
        match self {
            AgentOutput::Text(t) => AgentOutputView::Text(t@),
            AgentOutput::ToolUse { id, name, input } => AgentOutputView::ToolUse {
                id: id@,
                name: name@,
                input: input@,
            },
            AgentOutput::ToolResult { id, output, is_error } => AgentOutputView::ToolResult {
                id: id@,
                output: output@,
                is_error: *is_error,
            },
            AgentOutput::Done { text, is_error, session_id } => AgentOutputView::Done {
                text: opt_view(*text),
                is_error: *is_error,
                session_id: opt_view(*session_id),
            },
            AgentOutput::Error(e) => AgentOutputView::Error(e@),
            AgentOutput::System { session_id } => AgentOutputView::System {
                session_id: opt_view(*session_id),
            },
        }
    }
}

/// The terminal events: on seeing one the worker stops consuming the stream.
pub open spec fn is_final_spec(v: AgentOutputView) -> bool {
    v is Done || v is Error
}

/// The text an event carries for the parser, if any.
pub open spec fn text_spec(v: AgentOutputView) -> Option<Seq<char>> {
    match v {
        AgentOutputView::Text(t) => Some(t),
        AgentOutputView::Done { text, .. } => text,
        _ => None,
    }
}

impl AgentOutput {
    /// Check if this is a final result.
    pub fn is_final(&self) -> (r: bool)
        ensures
            r == is_final_spec(self@),
    {
        matches!(self, AgentOutput::Done { .. } | AgentOutput::Error(_))
    }

    /// Extract text content if available.
    pub fn text(&self) -> (r: Option<&str>)
        ensures
            (r is Some) == (text_spec(self@) is Some),
            r matches Some(t) ==> text_spec(self@) == Some(t@),
    {
        match self {
            AgentOutput::Text(t) => Some(t.as_str()),
            AgentOutput::Done { text, .. } => match text {
                Some(t) => Some(t.as_str()),
                None => None,
            },
            _ => None,
        }
    }
}

/// Configuration of the external assistant backend: extra command-line
/// arguments, for model selection and the like.
pub struct AssistantBackend {
    pub extra_args: Vec<String>,
}

/// The views of a list of argument strings.
pub open spec fn args_view(v: Seq<String>) -> Seq<Seq<char>> {
    v.map_values(|s: String| s@)
}

/// The fixed arguments every backend invocation starts with.
pub open spec fn base_args() -> Seq<Seq<char>> {
    seq![
        "-p"@,
        "--input-format"@,
        "stream-json"@,
        "--output-format"@,
        "stream-json"@,
        "--verbose"@,
    ]
}

impl AssistantBackend {
    /// A backend with no extra arguments.
    pub fn new() -> (r: AssistantBackend)
        ensures
            r.extra_args@.len() == 0,
    {
        AssistantBackend { extra_args: Vec::new() }
    }

    /// The same backend with extra command-line arguments.
    pub fn with_args(self, args: Vec<String>) -> (r: AssistantBackend)
        ensures
            r.extra_args == args,
    {
        AssistantBackend { extra_args: args }
    }

    /// Name of this backend.
    pub fn name(&self) -> (r: &'static str)
        ensures
            r@ == "assistant"@,
    {
        "assistant"
    }

    /// The full argument list for one invocation: the fixed stream-json
    /// arguments, the extra arguments, and the session id if one is resumed.
    pub fn backend_args(&self, session_id: &Option<String>) -> (r: Vec<String>)
        ensures
            args_view(r@) == base_args() + args_view(self.extra_args@) + (match session_id {
                None => Seq::<Seq<char>>::empty(),
                Some(s) => seq!["--session-id"@, s@],
            }),
    {
        let mut r: Vec<String> = Vec::new();
        r.push(String::from_str("-p"));
        r.push(String::from_str("--input-format"));
        r.push(String::from_str("stream-json"));
        r.push(String::from_str("--output-format"));
        r.push(String::from_str("stream-json"));
        r.push(String::from_str("--verbose"));
        proof {
            assert(args_view(r@) =~= base_args());
        }
        let mut i: usize = 0;
        while i < self.extra_args.len()
            invariant
                i <= self.extra_args@.len(),
                args_view(r@) == base_args() + args_view(self.extra_args@.take(i as int)),
            decreases self.extra_args@.len() - i,
        {
            let ghost prev = r@;
            let ghost x = self.extra_args@[i as int];
            r.push(self.extra_args[i].clone());
            proof {
                assert(r@ == prev.push(x));
                assert(args_view(prev.push(x)) =~~= args_view(prev) + seq![x@]);
                assert(self.extra_args@.take(i + 1 as int) =~= self.extra_args@.take(
                    i as int,
                ).push(x));
                assert(args_view(self.extra_args@.take(i as int).push(x)) =~~= args_view(
                    self.extra_args@.take(i as int),
                ) + seq![x@]);
                assert(args_view(r@) =~~= base_args() + args_view(
                    self.extra_args@.take(i + 1 as int),
                ));
            }
            i = i + 1;
        }
        proof {
            assert(self.extra_args@.take(self.extra_args@.len() as int) =~= self.extra_args@);
        }
        match session_id {
            None => {
                proof {
                    assert(args_view(r@) =~= base_args() + args_view(self.extra_args@)
                        + Seq::<Seq<char>>::empty());
                }
            },
            Some(s) => {
                r.push(String::from_str("--session-id"));
                r.push(s.clone());
                proof {
                    assert(args_view(r@) =~= base_args() + args_view(self.extra_args@) + seq![
                        "--session-id"@, s@]);
                }
            },
        }
        r
    }
}

/// The one line written to the child's standard input: a user message
/// carrying the whole prompt.
pub open spec fn backend_input_text(prompt: Seq<char>) -> Seq<char> {
    "{\"type\":\"user\",\"message\":{\"role\":\"user\",\"content\":\""@ + esc_str(prompt)
        + "\"}}"@
}

/// Builds the child's input line for a prompt.
pub fn backend_input_line(prompt: &str) -> (r: String)
    ensures
        r@ == backend_input_text(prompt@),
{
    let mut buf = str_to_chars("{\"type\":\"user\",\"message\":{\"role\":\"user\",\"content\":\"");
    let p = str_to_chars(prompt);
    crate::codec::append_escaped(&mut buf, &p);
    let mut part = str_to_chars("\"}}");
    buf.append(&mut part);
    proof {
        assert(buf@ =~= backend_input_text(prompt@));
    }
    chars_to_string(&buf)
}

/// The fields of one backend line that normalization reads, as plain values.
/// A field the line lacks is `None`.
pub struct RawEventFields {
    pub session_id: Option<String>,
    pub text: Option<String>,
    pub tool_use_id: Option<String>,
    pub tool_name: Option<String>,
    pub input_raw: Option<String>,
    pub output: Option<String>,
    pub is_error: Option<bool>,
    pub result_text: Option<String>,
    pub error: Option<String>,
    pub message: Option<String>,
}

/// The mathematical shape of [`RawEventFields`].
pub ghost struct RawEventFieldsView {
    pub session_id: Option<Seq<char>>,
    pub text: Option<Seq<char>>,
    pub tool_use_id: Option<Seq<char>>,
    pub tool_name: Option<Seq<char>>,
    pub input_raw: Option<Seq<char>>,
    pub output: Option<Seq<char>>,
    pub is_error: Option<bool>,
    pub result_text: Option<Seq<char>>,
    pub error: Option<Seq<char>>,
    pub message: Option<Seq<char>>,
}

impl View for RawEventFields {
    type V = RawEventFieldsView;

    open spec fn view(&self) -> RawEventFieldsView {
        RawEventFieldsView {
            session_id: opt_view(self.session_id),
            text: opt_view(self.text),
            tool_use_id: opt_view(self.tool_use_id),
            tool_name: opt_view(self.tool_name),
            input_raw: opt_view(self.input_raw),
            output: opt_view(self.output),
            is_error: self.is_error,
            result_text: opt_view(self.result_text),
            error: opt_view(self.error),
            message: opt_view(self.message),
        }
    }
}

/// What a line with the given type tag and fields normalizes to: the
/// provider-specific shapes map onto [`AgentOutput`], an unknown tag maps to
/// empty text (and so never ends the stream), and a tool event without its
/// identifiers is refused.
pub open spec fn normalize_spec(ty: Seq<char>, f: RawEventFieldsView) -> Option<AgentOutputView> {
    if ty == "system"@ {
        Some(AgentOutputView::System { session_id: f.session_id })
    } else if ty == "assistant"@ {
        Some(
            AgentOutputView::Text(
                match f.text {
                    Some(t) => t,
                    None => Seq::<char>::empty(),
                },
            ),
        )
    } else if ty == "tool_use"@ {
        if f.tool_use_id is Some && f.tool_name is Some {
            Some(
                AgentOutputView::ToolUse {
                    id: f.tool_use_id.unwrap(),
                    name: f.tool_name.unwrap(),
                    input: match f.input_raw {
                        Some(s) => s,
                        None => "null"@,
                    },
                },
            )
        } else {
            None
        }
    } else if ty == "tool_result"@ {
        if f.tool_use_id is Some {
            Some(
                AgentOutputView::ToolResult {
                    id: f.tool_use_id.unwrap(),
                    output: match f.output {
                        Some(s) => s,
                        None => Seq::<char>::empty(),
                    },
                    is_error: match f.is_error {
                        Some(b) => b,
                        None => false,
                    },
                },
            )
        } else {
            None
        }
    } else if ty == "result"@ {
        Some(
            AgentOutputView::Done {
                text: f.result_text,
                is_error: match f.is_error {
                    Some(b) => b,
                    None => false,
                },
                session_id: f.session_id,
            },
        )
    } else if ty == "error"@ {
        Some(
            AgentOutputView::Error(
                match f.error {
                    Some(e) => e,
                    None => match f.message {
                        Some(msg) => msg,
                        None => Seq::<char>::empty(),
                    },
                },
            ),
        )
    } else {
        Some(AgentOutputView::Text(Seq::<char>::empty()))
    }
}

/// Maps one line's type tag and extracted fields to the event it denotes.
/// The unknown-tag case yields empty text, which is not terminal: a line the
/// provider added in a newer protocol version never ends the stream.
pub fn normalize_event(ty: &str, f: RawEventFields) -> (r: Option<AgentOutput>)
    ensures
        (r is Some) == (normalize_spec(ty@, f@) is Some),
        r matches Some(ev) ==> normalize_spec(ty@, f@) == Some(ev@),
{
    let tyc = str_to_chars(ty);
    if chars_eq_lit(&tyc, "system") {
        Some(AgentOutput::System { session_id: f.session_id })
    } else if chars_eq_lit(&tyc, "assistant") {
        match f.text {
            Some(t) => Some(AgentOutput::Text(t)),
            None => Some(AgentOutput::Text(String::new())),
        }
    } else if chars_eq_lit(&tyc, "tool_use") {
        match (f.tool_use_id, f.tool_name) {
            (Some(id), Some(name)) => Some(
                AgentOutput::ToolUse {
                    id,
                    name,
                    input: match f.input_raw {
                        Some(s) => s,
                        None => String::from_str("null"),
                    },
                },
            ),
            _ => None,
        }
    } else if chars_eq_lit(&tyc, "tool_result") {
        match f.tool_use_id {
            Some(id) => Some(
                AgentOutput::ToolResult {
                    id,
                    output: match f.output {
                        Some(s) => s,
                        None => String::new(),
                    },
                    is_error: match f.is_error {
                        Some(b) => b,
                        None => false,
                    },
                },
            ),
            None => None,
        }
    } else if chars_eq_lit(&tyc, "result") {
        Some(
            AgentOutput::Done {
                text: f.result_text,
                is_error: match f.is_error {
                    Some(b) => b,
                    None => false,
                },
                session_id: f.session_id,
            },
        )
    } else if chars_eq_lit(&tyc, "error") {
        match f.error {
            Some(e) => Some(AgentOutput::Error(e)),
            None => match f.message {
                Some(msg) => Some(AgentOutput::Error(msg)),
                None => Some(AgentOutput::Error(String::new())),
            },
        }
    } else {
        Some(AgentOutput::Text(String::new()))
    }
}

/// Whether a character vector equals a literal.
fn chars_eq_lit(v: &Vec<char>, lit: &str) -> (r: bool)
    ensures
        r == (v@ == lit@),
{
    crate::text::chars_eq(v, &str_to_chars(lit))
}

/// A character that ends a primitive lexeme.
pub open spec fn is_delim(c: char) -> bool {
    c == ',' || c == '}' || c == ']'
}

/// Runtime test for [`is_delim`].
fn delim_char(c: char) -> (r: bool)
    ensures
        r == is_delim(c),
{
    c == ',' || c == '}' || c == ']'
}

/// The index just past the leading whitespace of `s` between `i` and `hi`.
pub open spec fn skip_ws(s: Seq<char>, i: int, hi: int) -> int {
    i + ws_prefix(s.subrange(i, hi))
}

/// The index just past the closing quote of a string whose body starts at
/// `j`; a backslash always takes the following character with it.
pub open spec fn string_end(s: Seq<char>, j: int, hi: int) -> Option<int>
    decreases hi - j when 0 <= j <= hi <= s.len()
{
    if j >= hi {
        None
    } else if s[j] == '"' {
        Some(j + 1)
    } else if s[j] == '\\' {
        if j + 2 <= hi {
            string_end(s, j + 2, hi)
        } else {
            None
        }
    } else {
        string_end(s, j + 1, hi)
    }
}

/// The index just past the characters of a primitive lexeme from `j` on.
pub open spec fn prim_end(s: Seq<char>, j: int, hi: int) -> int
    decreases hi - j when 0 <= j <= hi <= s.len()
{
    if j >= hi {
        j
    } else if is_delim(s[j]) || is_ws(s[j]) {
        j
    } else {
        prim_end(s, j + 1, hi)
    }
}

/// The index just past a bracketed value, scanned with a depth counter and
/// strings skipped whole.
pub open spec fn balanced_end(s: Seq<char>, j: int, hi: int, depth: nat) -> Option<int>
    decreases hi - j when 0 <= j <= hi <= s.len()
{
    if j >= hi {
        None
    } else if s[j] == '"' {
        match string_end(s, j + 1, hi) {
            None => None,
            Some(k) => if j < k <= hi {
                balanced_end(s, k, hi, depth)
            } else {
                None
            },
        }
    } else if s[j] == '{' || s[j] == '[' {
        balanced_end(s, j + 1, hi, depth + 1)
    } else if s[j] == '}' || s[j] == ']' {
        if depth == 1 {
            Some(j + 1)
        } else if depth == 0 {
            None
        } else {
            balanced_end(s, j + 1, hi, (depth - 1) as nat)
        }
    } else {
        balanced_end(s, j + 1, hi, depth)
    }
}

/// The index just past one JSON value at `i`: a string, a bracketed
/// composite, or a primitive lexeme.
pub open spec fn scan_value_spec(s: Seq<char>, i: int, hi: int) -> Option<int> {
    if !(0 <= i && i <= hi && hi <= s.len()) {
        None
    } else if i >= hi {
        None
    } else if s[i] == '"' {
        string_end(s, i + 1, hi)
    } else if s[i] == '{' || s[i] == '[' {
        balanced_end(s, i, hi, 0)
    } else {
        let j = prim_end(s, i, hi);
        if j == i {
            None
        } else {
            Some(j)
        }
    }
}

/// Skips past a quoted string starting at the quote at `i`; the index just
/// past the closing quote.
fn scan_string(v: &Vec<char>, i: usize, hi: usize) -> (r: Option<usize>)
    requires
        i < hi <= v@.len(),
    ensures
        (r is Some) == (string_end(v@, i + 1 as int, hi as int) is Some),
        r matches Some(k) ==> string_end(v@, i + 1 as int, hi as int) == Some(k as int) && i < k
            <= hi,
{
    let mut j: usize = i + 1;
    while j < hi
        invariant
            i < j <= hi,
            hi <= v@.len(),
            string_end(v@, i + 1 as int, hi as int) == string_end(v@, j as int, hi as int),
        decreases hi - j,
    {
        let c = v[j];
        if c == '"' {
            return Some(j + 1);
        }
        if c == '\\' {
            j = j + 1;
            if j < hi {
                j = j + 1;
            }
        } else {
            j = j + 1;
        }
    }
    None
}

/// Skips past one JSON value starting at `i`; the index just past it.
fn scan_value(v: &Vec<char>, i: usize, hi: usize) -> (r: Option<usize>)
    requires
        i <= hi <= v@.len(),
    ensures
        (r is Some) == (scan_value_spec(v@, i as int, hi as int) is Some),
        r matches Some(k) ==> scan_value_spec(v@, i as int, hi as int) == Some(k as int) && i < k
            <= hi,
{
    if i >= hi {
        return None;
    }
    let c0 = v[i];
    if c0 == '"' {
        return scan_string(v, i, hi);
    }
    if c0 == '{' || c0 == '[' {
        let mut depth: usize = 0;
        let mut j: usize = i;
        while j < hi
            invariant
                i <= j <= hi <= v@.len(),
                i < hi,
                v@[i as int] == '{' || v@[i as int] == '[',
                depth <= j - i,
                balanced_end(v@, i as int, hi as int, 0) == balanced_end(
                    v@,
                    j as int,
                    hi as int,
                    depth as nat,
                ),
            decreases hi - j,
        {
            let c = v[j];
            if c == '"' {
                match scan_string(v, j, hi) {
                    Some(k) => {
                        j = k;
                    },
                    None => {
                        return None;
                    },
                }
            } else if c == '{' || c == '[' {
                depth = depth + 1;
                j = j + 1;
            } else if c == '}' || c == ']' {
                if depth == 1 {
                    return Some(j + 1);
                } else if depth == 0 {
                    return None;
                } else {
                    depth = depth - 1;
                    j = j + 1;
                }
            } else {
                j = j + 1;
            }
        }
        return None;
    }
    let ghost start = i as int;
    let mut j: usize = i;
    while j < hi && !delim_char(v[j]) && !crate::text::ws_char(v[j])
        invariant
            i <= j <= hi <= v@.len(),
            prim_end(v@, i as int, hi as int) == prim_end(v@, j as int, hi as int),
        decreases hi - j,
    {
        j = j + 1;
    }
    proof {
        assert(prim_end(v@, j as int, hi as int) == j as int);
    }
    if j == i {
        None
    } else {
        Some(j)
    }
}

/// The views of extracted field triples.
pub open spec fn fields_views(fs: Seq<(String, usize, usize)>) -> Seq<(Seq<char>, int, int)> {
    fs.map_values(|f: (String, usize, usize)| (f.0@, f.1 as int, f.2 as int))
}

/// The members already read, prefixed onto those still to come.
pub open spec fn opt_prepend(
    pre: Seq<(Seq<char>, int, int)>,
    o: Option<Seq<(Seq<char>, int, int)>>,
) -> Option<Seq<(Seq<char>, int, int)>> {
    match o {
        None => None,
        Some(rest) => Some(pre + rest),
    }
}

/// The members of an object from the key expected at `i` to the closing
/// brace, which only whitespace may follow before `hi`.
pub open spec fn obj_members(s: Seq<char>, i: int, hi: int) -> Option<Seq<(Seq<char>, int, int)>>
    decreases hi - i when 0 <= i <= hi <= s.len()
{
    if i >= hi || s[i] != '"' {
        None
    } else {
        match unesc_at(s, i + 1) {
            None => None,
            Some((key, j)) => if !(i + 1 < j && j <= hi) {
                None
            } else {
                let p = skip_ws(s, j, hi);
                if p >= hi || s[p] != ':' {
                    None
                } else {
                    let p2 = skip_ws(s, p + 1, hi);
                    match scan_value_spec(s, p2, hi) {
                        None => None,
                        Some(end) => if !(p2 < end && end <= hi) {
                            None
                        } else {
                            let q = skip_ws(s, end, hi);
                            if q < hi && s[q] == ',' {
                                let next = skip_ws(s, q + 1, hi);
                                if next <= hi {
                                    opt_prepend(seq![(key, p2, end)], obj_members(s, next, hi))
                                } else {
                                    None
                                }
                            } else if q < hi && s[q] == '}' {
                                if skip_ws(s, q + 1, hi) == hi {
                                    Some(seq![(key, p2, end)])
                                } else {
                                    None
                                }
                            } else {
                                None
                            }
                        },
                    }
                }
            },
        }
    }
}

/// The key and value range of every member of the object between `lo` and
/// `hi`, or nothing if that range is not one whole object.
pub open spec fn obj_fields_spec(s: Seq<char>, lo: int, hi: int) -> Option<
    Seq<(Seq<char>, int, int)>,
> {
    if !(0 <= lo && lo <= hi && hi <= s.len()) {
        None
    } else {
        let i = skip_ws(s, lo, hi);
        if i >= hi || s[i] != '{' {
            None
        } else {
            let i2 = skip_ws(s, i + 1, hi);
            if i2 < hi && s[i2] == '}' {
                if skip_ws(s, i2 + 1, hi) == hi {
                    Some(Seq::<(Seq<char>, int, int)>::empty())
                } else {
                    None
                }
            } else if i2 <= hi {
                obj_members(s, i2, hi)
            } else {
                None
            }
        }
    }
}

/// The key and value range of every member of the object between `lo` and
/// `hi`; nothing but whitespace may follow the closing brace.
fn obj_fields(v: &Vec<char>, lo: usize, hi: usize) -> (r: Option<Vec<(String, usize, usize)>>)
    requires
        lo <= hi <= v@.len(),
    ensures
        (r is Some) == (obj_fields_spec(v@, lo as int, hi as int) is Some),
        r matches Some(fs) ==> obj_fields_spec(v@, lo as int, hi as int) == Some(
            fields_views(fs@),
        ) && (forall|k: int|
            0 <= k < fs@.len() ==> lo <= (#[trigger] fs@[k]).1 && fs@[k].1 < fs@[k].2 && fs@[k].2
                <= hi),
{
    let mut i = scan_ws_start(v, lo, hi);
    if i >= hi || v[i] != '{' {
        return None;
    }
    i = scan_ws_start(v, i + 1, hi);
    let mut fs: Vec<(String, usize, usize)> = Vec::new();
    if i < hi && v[i] == '}' {
        if scan_ws_start(v, i + 1, hi) == hi {
            proof {
                assert(fields_views(fs@) =~= Seq::<(Seq<char>, int, int)>::empty());
            }
            return Some(fs);
        }
        return None;
    }
    proof {
        assert(obj_fields_spec(v@, lo as int, hi as int) == opt_prepend(
            fields_views(fs@),
            obj_members(v@, i as int, hi as int),
        )) by {
            assert(fields_views(fs@) =~= Seq::<(Seq<char>, int, int)>::empty());
            match obj_members(v@, i as int, hi as int) {
                None => {},
                Some(rest) => {
                    assert(fields_views(fs@) + rest =~= rest);
                },
            }
        }
    }
    loop
        invariant
            lo <= i <= hi <= v@.len(),
            obj_fields_spec(v@, lo as int, hi as int) == opt_prepend(
                fields_views(fs@),
                obj_members(v@, i as int, hi as int),
            ),
            forall|k: int|
                0 <= k < fs@.len() ==> lo <= (#[trigger] fs@[k]).1 && fs@[k].1 < fs@[k].2
                    && fs@[k].2 <= hi,
        decreases hi - i,
    {
        if i >= hi || v[i] != '"' {
            return None;
        }
        let (key, j) = match unesc_exec(v, i + 1) {
            Some(x) => x,
            None => {
                return None;
            },
        };
        if j > hi {
            return None;
        }
        let mut p = scan_ws_start(v, j, hi);
        if p >= hi || v[p] != ':' {
            return None;
        }
        p = scan_ws_start(v, p + 1, hi);
        let end = match scan_value(v, p, hi) {
            Some(e) => e,
            None => {
                return None;
            },
        };
        let ghost member = (key@, p as int, end as int);
        let ghost prev = fs@;
        fs.push((chars_to_string(&key), p, end));
        proof {
            assert(fields_views(fs@) =~~= fields_views(prev) + seq![member]);
        }
        let q = scan_ws_start(v, end, hi);
        if q < hi && v[q] == ',' {
            let next = scan_ws_start(v, q + 1, hi);
            proof {
                assert(obj_members(v@, i as int, hi as int) == opt_prepend(
                    seq![member],
                    obj_members(v@, next as int, hi as int),
                ));
                match obj_members(v@, next as int, hi as int) {
                    None => {},
                    Some(rest) => {
                        assert(fields_views(prev) + (seq![member] + rest) =~= fields_views(fs@)
                            + rest);
                    },
                }
            }
            i = next;
        } else if q < hi && v[q] == '}' {
            if scan_ws_start(v, q + 1, hi) == hi {
                proof {
                    assert(obj_members(v@, i as int, hi as int) == Some(seq![member]));
                    assert(fields_views(prev) + seq![member] =~= fields_views(fs@));
                }
                return Some(fs);
            }
            return None;
        } else {
            return None;
        }
    }
}

/// The value range of the first member with the given key.
pub open spec fn find_field(fs: Seq<(Seq<char>, int, int)>, name: Seq<char>) -> Option<(int, int)>
    decreases fs.len(),
{
    if fs.len() == 0 {
        None
    } else if fs[0].0 == name {
        Some((fs[0].1, fs[0].2))
    } else {
        find_field(fs.drop_first(), name)
    }
}

/// Looks a key up among the extracted members: the exec form of
/// [`find_field`].
fn field_range(fields: &Vec<(String, usize, usize)>, name: &str) -> (r: Option<(usize, usize)>)
    ensures
        (r is Some) == (find_field(fields_views(fields@), name@) is Some),
        r matches Some((a, b)) ==> find_field(fields_views(fields@), name@) == Some(
            (a as int, b as int),
        ) && exists|k: int|
            0 <= k < fields@.len() && (#[trigger] fields@[k]).0@ == name@ && fields@[k].1 == a
                && fields@[k].2 == b,
{
    let pat = String::from_str(name);
    let ghost fv = fields_views(fields@);
    let mut i: usize = 0;
    proof {
        assert(fv.skip(0) =~= fv);
    }
    while i < fields.len()
        invariant
            i <= fields@.len(),
            pat@ == name@,
            fv == fields_views(fields@),
            find_field(fv, name@) == find_field(fv.skip(i as int), name@),
        decreases fields@.len() - i,
    {
        let f = &fields[i];
        proof {
            assert(fv.skip(i as int)[0] == fv[i as int]);
            assert(fv[i as int] == (fields@[i as int].0@, fields@[i as int].1 as int, fields@[
                i as int].2 as int));
        }
        if f.0 == pat {
            proof {
                assert(find_field(fv.skip(i as int), name@) == Some(
                    (fv[i as int].1, fv[i as int].2),
                ));
            }
            return Some((f.1, f.2));
        }
        proof {
            assert(fv.skip(i as int).drop_first() =~= fv.skip(i + 1 as int));
        }
        i = i + 1;
    }
    proof {
        assert(fv.skip(fields@.len() as int).len() == 0);
    }
    None
}

/// The string a quoted value range holds, unescaped; the quotes must bound
/// the range exactly.
pub open spec fn string_at_spec(s: Seq<char>, a: int, b: int) -> Option<Seq<char>> {
    if 0 <= a && a < b && b <= s.len() && s[a] == '"' {
        match unesc_at(s, a + 1) {
            Some((w, j)) => if j == b {
                Some(w)
            } else {
                None
            },
            None => None,
        }
    } else {
        None
    }
}

/// Reads a quoted value range: the exec form of [`string_at_spec`].
fn string_at(v: &Vec<char>, a: usize, b: usize) -> (r: Option<String>)
    requires
        a <= b <= v@.len(),
    ensures
        (r is Some) == (string_at_spec(v@, a as int, b as int) is Some),
        r matches Some(s) ==> string_at_spec(v@, a as int, b as int) == Some(s@),
{
    if a < b && v[a] == '"' {
        match unesc_exec(v, a + 1) {
            Some((w, j)) => {
                if j == b {
                    Some(chars_to_string(&w))
                } else {
                    None
                }
            },
            None => None,
        }
    } else {
        None
    }
}

/// The boolean a value range holds, if it is `true` or `false`.
pub open spec fn bool_at_spec(s: Seq<char>, a: int, b: int) -> Option<bool> {
    if !(0 <= a && a <= b && b <= s.len()) {
        None
    } else if s.subrange(a, b) == "true"@ {
        Some(true)
    } else if s.subrange(a, b) == "false"@ {
        Some(false)
    } else {
        None
    }
}

/// Reads a boolean value range: the exec form of [`bool_at_spec`].
fn bool_at(v: &Vec<char>, a: usize, b: usize) -> (r: Option<bool>)
    requires
        a <= b <= v@.len(),
    ensures
        r == bool_at_spec(v@, a as int, b as int),
{
    let w = crate::text::copy_range(v, a, b);
    if chars_eq_lit(&w, "true") {
        Some(true)
    } else if chars_eq_lit(&w, "false") {
        Some(false)
    } else {
        None
    }
}

/// Whether a value range holds the literal `null`.
pub open spec fn is_null_at(s: Seq<char>, a: int, b: int) -> bool {
    0 <= a && a <= b && b <= s.len() && s.subrange(a, b) == "null"@
}

/// Runtime test for [`is_null_at`].
fn null_at(v: &Vec<char>, a: usize, b: usize) -> (r: bool)
    requires
        a <= b <= v@.len(),
    ensures
        r == is_null_at(v@, a as int, b as int),
{
    let w = crate::text::copy_range(v, a, b);
    chars_eq_lit(&w, "null")
}

/// A field that must be a string or `null` when present: an error marks the
/// line malformed.
pub open spec fn opt_string_field_spec(
    s: Seq<char>,
    fs: Seq<(Seq<char>, int, int)>,
    name: Seq<char>,
) -> Result<Option<Seq<char>>, ()> {
    match find_field(fs, name) {
        None => Ok(None),
        Some((a, b)) => if is_null_at(s, a, b) {
            Ok(None)
        } else {
            match string_at_spec(s, a, b) {
                Some(w) => Ok(Some(w)),
                None => Err(()),
            }
        },
    }
}

/// Reads an optional string field: the exec form of
/// [`opt_string_field_spec`].
fn opt_string_field(v: &Vec<char>, fields: &Vec<(String, usize, usize)>, name: &str, hi: usize)
    -> (r: Result<Option<String>, ()>)
    requires
        hi <= v@.len(),
        forall|k: int|
            0 <= k < fields@.len() ==> (#[trigger] fields@[k]).1 < fields@[k].2 && fields@[k].2
                <= hi,
    ensures
        (r is Ok) == (opt_string_field_spec(v@, fields_views(fields@), name@) is Ok),
        r matches Ok(o) ==> opt_string_field_spec(v@, fields_views(fields@), name@)
            == Ok::<Option<Seq<char>>, ()>(opt_view(o)),
{
    match field_range(fields, name) {
        None => Ok(None),
        Some((a, b)) => {
            if null_at(v, a, b) {
                Ok(None)
            } else {
                match string_at(v, a, b) {
                    Some(s) => Ok(Some(s)),
                    None => Err(()),
                }
            }
        },
    }
}

/// A field that must be a boolean or `null` when present.
pub open spec fn opt_bool_field_spec(
    s: Seq<char>,
    fs: Seq<(Seq<char>, int, int)>,
    name: Seq<char>,
) -> Result<Option<bool>, ()> {
    match find_field(fs, name) {
        None => Ok(None),
        Some((a, b)) => if is_null_at(s, a, b) {
            Ok(None)
        } else {
            match bool_at_spec(s, a, b) {
                Some(x) => Ok(Some(x)),
                None => Err(()),
            }
        },
    }
}

/// Reads an optional boolean field: the exec form of
/// [`opt_bool_field_spec`].
fn opt_bool_field(v: &Vec<char>, fields: &Vec<(String, usize, usize)>, name: &str, hi: usize) -> (r:
    Result<Option<bool>, ()>)
    requires
        hi <= v@.len(),
        forall|k: int|
            0 <= k < fields@.len() ==> (#[trigger] fields@[k]).1 < fields@[k].2 && fields@[k].2
                <= hi,
    ensures
        r == opt_bool_field_spec(v@, fields_views(fields@), name@),
{
    match field_range(fields, name) {
        None => Ok(None),
        Some((a, b)) => {
            if null_at(v, a, b) {
                Ok(None)
            } else {
                match bool_at(v, a, b) {
                    Some(x) => Ok(Some(x)),
                    None => Err(()),
                }
            }
        },
    }
}

/// A field that must be a plain boolean when present: here `null` marks the
/// line malformed too.
pub open spec fn req_bool_field_spec(
    s: Seq<char>,
    fs: Seq<(Seq<char>, int, int)>,
    name: Seq<char>,
) -> Result<Option<bool>, ()> {
    match find_field(fs, name) {
        None => Ok(None),
        Some((a, b)) => match bool_at_spec(s, a, b) {
            Some(x) => Ok(Some(x)),
            None => Err(()),
        },
    }
}

/// Reads a plain boolean field: the exec form of [`req_bool_field_spec`].
fn req_bool_field(v: &Vec<char>, fields: &Vec<(String, usize, usize)>, name: &str, hi: usize) -> (r:
    Result<Option<bool>, ()>)
    requires
        hi <= v@.len(),
        forall|k: int|
            0 <= k < fields@.len() ==> (#[trigger] fields@[k]).1 < fields@[k].2 && fields@[k].2
                <= hi,
    ensures
        r == req_bool_field_spec(v@, fields_views(fields@), name@),
{
    match field_range(fields, name) {
        None => Ok(None),
        Some((a, b)) => {
            match bool_at(v, a, b) {
                Some(x) => Ok(Some(x)),
                None => Err(()),
            }
        },
    }
}

/// The text of the first `type:"text"` block of a content array, reading
/// elements from position `i` on; an error marks a malformed array.
pub open spec fn first_text_from(s: Seq<char>, i: int, hi: int) -> Result<Option<Seq<char>>, ()>
    decreases hi - i when 0 <= i <= hi <= s.len()
{
    let p = skip_ws(s, i, hi);
    if p >= hi {
        Err(())
    } else if s[p] == ']' {
        Ok(None)
    } else {
        match scan_value_spec(s, p, hi) {
            None => Err(()),
            Some(end) => if !(p < end && end <= hi) {
                Err(())
            } else {
                match obj_fields_spec(s, p, end) {
                    None => Err(()),
                    Some(bf) => match find_field(bf, "type"@) {
                        None => Err(()),
                        Some((a, b)) => match string_at_spec(s, a, b) {
                            None => Err(()),
                            Some(bty) => if bty == "text"@ {
                                match find_field(bf, "text"@) {
                                    None => Err(()),
                                    Some((ta, tb)) => match string_at_spec(s, ta, tb) {
                                        None => Err(()),
                                        Some(t) => Ok(Some(t)),
                                    },
                                }
                            } else {
                                let q = skip_ws(s, end, hi);
                                if q < hi && s[q] == ',' {
                                    first_text_from(s, q + 1, hi)
                                } else if q < hi && s[q] == ']' {
                                    Ok(None)
                                } else {
                                    Err(())
                                }
                            },
                        },
                    },
                }
            },
        }
    }
}

/// The text of the first `type:"text"` block of the content array between
/// `lo` and `hi`.
pub open spec fn first_text_block_spec(s: Seq<char>, lo: int, hi: int) -> Result<
    Option<Seq<char>>,
    (),
> {
    if !(0 <= lo && lo <= hi && hi <= s.len()) {
        Err(())
    } else {
        let p = skip_ws(s, lo, hi);
        if p >= hi || s[p] != '[' {
            Err(())
        } else {
            first_text_from(s, p + 1, hi)
        }
    }
}

/// Reads the first text block of a content array: the exec form of
/// [`first_text_block_spec`].
fn first_text_block(v: &Vec<char>, lo: usize, hi: usize) -> (r: Result<Option<String>, ()>)
    requires
        lo <= hi <= v@.len(),
    ensures
        (r is Ok) == (first_text_block_spec(v@, lo as int, hi as int) is Ok),
        r matches Ok(o) ==> first_text_block_spec(v@, lo as int, hi as int) == Ok::<
            Option<Seq<char>>,
            (),
        >(opt_view(o)),
{
    let start = scan_ws_start(v, lo, hi);
    if start >= hi || v[start] != '[' {
        return Err(());
    }
    let mut i: usize = start + 1;
    loop
        invariant
            lo <= i <= hi <= v@.len(),
            first_text_block_spec(v@, lo as int, hi as int) == first_text_from(
                v@,
                i as int,
                hi as int,
            ),
        decreases hi - i,
    {
        let p = scan_ws_start(v, i, hi);
        if p >= hi {
            return Err(());
        }
        if v[p] == ']' {
            return Ok(None);
        }
        let end = match scan_value(v, p, hi) {
            Some(e) => e,
            None => {
                return Err(());
            },
        };
        let bf = match obj_fields(v, p, end) {
            Some(x) => x,
            None => {
                return Err(());
            },
        };
        let (a, b) = match field_range(&bf, "type") {
            Some(x) => x,
            None => {
                return Err(());
            },
        };
        proof {
            assert(a < b && b <= end);
        }
        let bty = match string_at(v, a, b) {
            Some(t) => t,
            None => {
                return Err(());
            },
        };
        let btyc = str_to_chars(bty.as_str());
        if chars_eq_lit(&btyc, "text") {
            let (ta, tb) = match field_range(&bf, "text") {
                Some(x) => x,
                None => {
                    return Err(());
                },
            };
            proof {
                assert(ta < tb && tb <= end);
            }
            match string_at(v, ta, tb) {
                Some(t) => {
                    return Ok(Some(t));
                },
                None => {
                    return Err(());
                },
            }
        }
        let q = scan_ws_start(v, end, hi);
        if q < hi && v[q] == ',' {
            i = q + 1;
        } else if q < hi && v[q] == ']' {
            return Ok(None);
        } else {
            return Err(());
        }
    }
}

/// The empty field record; each type fills in only what it reads.
pub open spec fn no_fields() -> RawEventFieldsView {
    RawEventFieldsView {
        session_id: None,
        text: None,
        tool_use_id: None,
        tool_name: None,
        input_raw: None,
        output: None,
        is_error: None,
        result_text: None,
        error: None,
        message: None,
    }
}

/// Lifts the fields a line's type reads out of the scanned object, with the
/// strictness each type's shape demands: a field of the wrong kind marks
/// the line malformed, while fields a type does not read are ignored.
pub open spec fn extract_fields_spec(
    s: Seq<char>,
    fs: Seq<(Seq<char>, int, int)>,
    ty: Seq<char>,
) -> Result<RawEventFieldsView, ()> {
    if ty == "system"@ {
        match opt_string_field_spec(s, fs, "session_id"@) {
            Err(e) => Err(e),
            Ok(sid) => Ok(RawEventFieldsView { session_id: sid, ..no_fields() }),
        }
    } else if ty == "assistant"@ {
        match find_field(fs, "message"@) {
            None => Err(()),
            Some((ma, mb)) => match obj_fields_spec(s, ma, mb) {
                None => Err(()),
                Some(inner) => match find_field(inner, "content"@) {
                    None => Ok(no_fields()),
                    Some((ca, cb)) => match first_text_block_spec(s, ca, cb) {
                        Err(e) => Err(e),
                        Ok(t) => Ok(RawEventFieldsView { text: t, ..no_fields() }),
                    },
                },
            },
        }
    } else if ty == "tool_use"@ {
        match opt_string_field_spec(s, fs, "tool_use_id"@) {
            Err(e) => Err(e),
            Ok(id) => match opt_string_field_spec(s, fs, "tool_name"@) {
                Err(e) => Err(e),
                Ok(name) => Ok(
                    RawEventFieldsView {
                        tool_use_id: id,
                        tool_name: name,
                        input_raw: match find_field(fs, "input"@) {
                            Some((a, b)) => if 0 <= a && a <= b && b <= s.len() {
                                Some(s.subrange(a, b))
                            } else {
                                None
                            },
                            None => None,
                        },
                        ..no_fields()
                    },
                ),
            },
        }
    } else if ty == "tool_result"@ {
        match opt_string_field_spec(s, fs, "tool_use_id"@) {
            Err(e) => Err(e),
            Ok(id) => match opt_string_field_spec(s, fs, "output"@) {
                Err(e) => Err(e),
                Ok(out) => match opt_bool_field_spec(s, fs, "is_error"@) {
                    Err(e) => Err(e),
                    Ok(ise) => Ok(
                        RawEventFieldsView {
                            tool_use_id: id,
                            output: out,
                            is_error: ise,
                            ..no_fields()
                        },
                    ),
                },
            },
        }
    } else if ty == "result"@ {
        match opt_string_field_spec(s, fs, "result"@) {
            Err(e) => Err(e),
            Ok(rt) => match req_bool_field_spec(s, fs, "is_error"@) {
                Err(e) => Err(e),
                Ok(ise) => match opt_string_field_spec(s, fs, "session_id"@) {
                    Err(e) => Err(e),
                    Ok(sid) => Ok(
                        RawEventFieldsView {
                            result_text: rt,
                            is_error: ise,
                            session_id: sid,
                            ..no_fields()
                        },
                    ),
                },
            },
        }
    } else if ty == "error"@ {
        match opt_string_field_spec(s, fs, "error"@) {
            Err(e) => Err(e),
            Ok(err) => match opt_string_field_spec(s, fs, "message"@) {
                Err(e) => Err(e),
                Ok(msg) => Ok(RawEventFieldsView { error: err, message: msg, ..no_fields() }),
            },
        }
    } else {
        Ok(no_fields())
    }
}

/// Lifts a line's fields out: the exec form of [`extract_fields_spec`].
fn extract_fields(
    v: &Vec<char>,
    fields: &Vec<(String, usize, usize)>,
    tyc: &Vec<char>,
    hi: usize,
) -> (r: Result<RawEventFields, ()>)
    requires
        hi <= v@.len(),
        forall|k: int|
            0 <= k < fields@.len() ==> (#[trigger] fields@[k]).1 < fields@[k].2 && fields@[k].2
                <= hi,
    ensures
        (r is Ok) == (extract_fields_spec(v@, fields_views(fields@), tyc@) is Ok),
        r matches Ok(f) ==> extract_fields_spec(v@, fields_views(fields@), tyc@) == Ok::<
            RawEventFieldsView,
            (),
        >(f@),
{
    let none_fields = RawEventFields {
        session_id: None,
        text: None,
        tool_use_id: None,
        tool_name: None,
        input_raw: None,
        output: None,
        is_error: None,
        result_text: None,
        error: None,
        message: None,
    };
    if chars_eq_lit(tyc, "system") {
        match opt_string_field(v, fields, "session_id", hi) {
            Err(e) => Err(e),
            Ok(sid) => Ok(RawEventFields { session_id: sid, ..none_fields }),
        }
    } else if chars_eq_lit(tyc, "assistant") {
        match field_range(fields, "message") {
            None => Err(()),
            Some((ma, mb)) => {
                proof {
                    assert(ma < mb && mb <= hi);
                }
                match obj_fields(v, ma, mb) {
                    None => Err(()),
                    Some(inner) => match field_range(&inner, "content") {
                        None => Ok(none_fields),
                        Some((ca, cb)) => {
                            proof {
                                assert(ca < cb && cb <= mb);
                            }
                            match first_text_block(v, ca, cb) {
                                Err(e) => Err(e),
                                Ok(t) => Ok(RawEventFields { text: t, ..none_fields }),
                            }
                        },
                    },
                }
            },
        }
    } else if chars_eq_lit(tyc, "tool_use") {
        match opt_string_field(v, fields, "tool_use_id", hi) {
            Err(e) => Err(e),
            Ok(id) => match opt_string_field(v, fields, "tool_name", hi) {
                Err(e) => Err(e),
                Ok(name) => {
                    let input_raw = match field_range(fields, "input") {
                        Some((a, b)) => {
                            proof {
                                assert(a < b && b <= hi);
                            }
                            Some(chars_to_string(&crate::text::copy_range(v, a, b)))
                        },
                        None => None,
                    };
                    Ok(
                        RawEventFields {
                            tool_use_id: id,
                            tool_name: name,
                            input_raw,
                            ..none_fields
                        },
                    )
                },
            },
        }
    } else if chars_eq_lit(tyc, "tool_result") {
        match opt_string_field(v, fields, "tool_use_id", hi) {
            Err(e) => Err(e),
            Ok(id) => match opt_string_field(v, fields, "output", hi) {
                Err(e) => Err(e),
                Ok(out) => match opt_bool_field(v, fields, "is_error", hi) {
                    Err(e) => Err(e),
                    Ok(ise) => Ok(
                        RawEventFields { tool_use_id: id, output: out, is_error: ise, ..none_fields },
                    ),
                },
            },
        }
    } else if chars_eq_lit(tyc, "result") {
        match opt_string_field(v, fields, "result", hi) {
            Err(e) => Err(e),
            Ok(rt) => match req_bool_field(v, fields, "is_error", hi) {
                Err(e) => Err(e),
                Ok(ise) => match opt_string_field(v, fields, "session_id", hi) {
                    Err(e) => Err(e),
                    Ok(sid) => Ok(
                        RawEventFields {
                            result_text: rt,
                            is_error: ise,
                            session_id: sid,
                            ..none_fields
                        },
                    ),
                },
            },
        }
    } else if chars_eq_lit(tyc, "error") {
        match opt_string_field(v, fields, "error", hi) {
            Err(e) => Err(e),
            Ok(err) => match opt_string_field(v, fields, "message", hi) {
                Err(e) => Err(e),
                Ok(msg) => Ok(RawEventFields { error: err, message: msg, ..none_fields }),
            },
        }
    } else {
        Ok(none_fields)
    }
}

/// The reader's result on one line of the child's output: the line scanned
/// as one JSON object, the `type` tag and that type's fields lifted out,
/// and [`normalize_spec`] applied to them; anything malformed reads as
/// nothing, and the line is skipped.
pub open spec fn backend_line_spec(s: Seq<char>) -> Option<AgentOutputView> {
    match obj_fields_spec(s, 0, s.len() as int) {
        None => None,
        Some(fs) => match find_field(fs, "type"@) {
            None => None,
            Some((a, b)) => match string_at_spec(s, a, b) {
                None => None,
                Some(ty) => match extract_fields_spec(s, fs, ty) {
                    Err(_) => None,
                    Ok(f) => normalize_spec(ty, f),
                },
            },
        },
    }
}

/// Reads one line of the backend child's output into an event: the exec
/// form of [`backend_line_spec`]. The unknown-tag case yields empty text
/// and so never ends the stream; an unparseable line yields nothing and is
/// skipped, and the stream goes on.
pub fn parse_backend_line(line: &str) -> (r: Option<AgentOutput>)
    ensures
        (r is Some) == (backend_line_spec(line@) is Some),
        r matches Some(ev) ==> backend_line_spec(line@) == Some(ev@),
{
    let v = str_to_chars(line);
    let n = v.len();
    let fields = match obj_fields(&v, 0, n) {
        Some(fs) => fs,
        None => {
            return None;
        },
    };
    let (ta, tb) = match field_range(&fields, "type") {
        Some(x) => x,
        None => {
            return None;
        },
    };
    proof {
        assert(ta < tb && tb <= n);
    }
    let ty = match string_at(&v, ta, tb) {
        Some(t) => t,
        None => {
            return None;
        },
    };
    let tyc = str_to_chars(ty.as_str());
    let f = match extract_fields(&v, &fields, &tyc, n) {
        Ok(f) => f,
        Err(_) => {
            return None;
        },
    };
    normalize_event(ty.as_str(), f)
}


} // verus!
