//! The command-line speed test's choices: how much progress to report, the
//! lines it reports, and JSON string escaping for its machine-readable result.
use vstd::prelude::*;
use crate::network::{InterfaceStatus, status_description};
use crate::text::{chars_to_string, push_chars, push_str, to_chars};

verus! {

broadcast use vstd::string::group_string_axioms;

/// The result's format.
#[derive(Debug, Clone, Copy, PartialEq, Eq, Structural)]
pub enum OutputFormat {
    Text,
    Json,
}

/// How much progress goes to stderr.
#[derive(Debug, Clone, Copy, PartialEq, Eq, Structural)]
pub enum CliProgress {
    Quiet,
    Basic,
    Detailed,
}

/// Progress that was asked for is detailed; otherwise text output shows the
/// phases and JSON output stays quiet.
pub fn cli_progress_mode(output: OutputFormat, requested: bool) -> (r: CliProgress)
    ensures
        requested ==> r == CliProgress::Detailed,
        !requested && output == OutputFormat::Text ==> r == CliProgress::Basic,
        !requested && output == OutputFormat::Json ==> r == CliProgress::Quiet,
{
    if requested {
        return CliProgress::Detailed;
    }
    match output {
        OutputFormat::Text => CliProgress::Basic,
        OutputFormat::Json => CliProgress::Quiet,
    }
}

/// The line announcing the test in each progress mode (none when quiet).
pub open spec fn start_line_text(interface: Seq<char>, mode: CliProgress) -> Option<Seq<char>> {
    match mode {
        CliProgress::Quiet => None,
        CliProgress::Basic => Some("Testing network speed on "@ + interface + "..."@),
        CliProgress::Detailed => Some("testing_interface="@ + interface),
    }
}

/// The line announcing a test on `interface`, if `mode` reports one.
pub fn progress_start_line(interface: &str, mode: CliProgress) -> (r: Option<String>)
    ensures
        match start_line_text(interface@, mode) {
            Some(t) => r matches Some(s) && s@ == t,
            None => r is None,
        },
{
    match mode {
        CliProgress::Quiet => None,
        CliProgress::Basic => {
            let mut out: Vec<char> = Vec::new();
            push_str(&mut out, "Testing network speed on ");
            push_str(&mut out, interface);
            push_str(&mut out, "...");
            Some(chars_to_string(&out))
        },
        CliProgress::Detailed => {
            let mut out: Vec<char> = Vec::new();
            push_str(&mut out, "testing_interface=");
            push_str(&mut out, interface);
            Some(chars_to_string(&out))
        },
    }
}

/// Why no test starts on an interface that is not up.
pub open spec fn not_started_text(interface: Seq<char>, status: InterfaceStatus) -> Seq<char> {
    "interface '"@ + interface + "' "@ + status_description(status) + "; speed test not started"@
}

/// The message refusing a speed test on `interface` in link state `status`.
pub fn not_started_message(interface: &str, status: &InterfaceStatus) -> (r: String)
    ensures
        r@ == not_started_text(interface@, *status),
{
    let mut out: Vec<char> = Vec::new();
    push_str(&mut out, "interface '");
    push_str(&mut out, interface);
    push_str(&mut out, "' ");
    push_str(&mut out, status.description());
    push_str(&mut out, "; speed test not started");
    chars_to_string(&out)
}

/// The result line: `key=value` pairs for text output, a JSON object for
/// JSON output (with the interface name escaped), given the two speeds
/// already written with two decimals.
pub open spec fn result_text(
    interface: Seq<char>,
    output: OutputFormat,
    download: Seq<char>,
    upload: Seq<char>,
) -> Seq<char> {
    match output {
        OutputFormat::Text => "interface="@ + interface + " download_mbps="@ + download
            + " upload_mbps="@ + upload,
        OutputFormat::Json => "{\"interface\":\""@ + json_escaped(interface)
            + "\",\"download_mbps\":"@ + download + ",\"upload_mbps\":"@ + upload + "}"@,
    }
}

/// The line that reports a finished test on `interface`, with the speeds
/// `download` and `upload` as written for the reader.
pub fn result_line(interface: &str, output: OutputFormat, download: &str, upload: &str) -> (r:
    String)
    ensures
        r@ == result_text(interface@, output, download@, upload@),
{
    let mut out: Vec<char> = Vec::new();
    match output {
        OutputFormat::Text => {
            push_str(&mut out, "interface=");
            push_str(&mut out, interface);
            push_str(&mut out, " download_mbps=");
            push_str(&mut out, download);
            push_str(&mut out, " upload_mbps=");
            push_str(&mut out, upload);
        },
        OutputFormat::Json => {
            push_str(&mut out, "{\"interface\":\"");
            let escaped = json_escape(interface);
            push_str(&mut out, escaped.as_str());
            push_str(&mut out, "\",\"download_mbps\":");
            push_str(&mut out, download);
            push_str(&mut out, ",\"upload_mbps\":");
            push_str(&mut out, upload);
            push_str(&mut out, "}");
        },
    }
    chars_to_string(&out)
}

// ───────────────────────────── JSON strings ─────────────────────────────

/// The JSON spelling of one character inside a string.
pub open spec fn escape_char(c: char) -> Seq<char> {
    if c == '"' {
        seq!['\\', '"']
    } else if c == '\\' {
        seq!['\\', '\\']
    } else if c == '\n' {
        seq!['\\', 'n']
    } else if c == '\r' {
        seq!['\\', 'r']
    } else if c == '\t' {
        seq!['\\', 't']
    } else {
        seq![c]
    }
}

/// `s` with each of `"`, `\`, newline, carriage return and tab escaped.
pub open spec fn json_escaped(s: Seq<char>) -> Seq<char>
    decreases s.len(),
{
    if s.len() == 0 {
        Seq::empty()
    } else {
        escape_char(s[0]) + json_escaped(s.drop_first())
    }
}

/// The character that a backslash followed by `c` stands for.
pub open spec fn unescape_char(c: char) -> char {
    if c == 'n' {
        '\n'
    } else if c == 'r' {
        '\r'
    } else if c == 't' {
        '\t'
    } else {
        c
    }
}

/// Reads escaped JSON string text back into the characters it stands for.
pub open spec fn json_unescape(t: Seq<char>) -> Seq<char>
    decreases t.len(),
{
    if t.len() == 0 {
        Seq::empty()
    } else if t[0] == '\\' && t.len() >= 2 {
        seq![unescape_char(t[1])] + json_unescape(t.skip(2))
    } else {
        seq![t[0]] + json_unescape(t.skip(1))
    }
}

proof fn lemma_json_escaped_append(s: Seq<char>, c: char)
    ensures
        json_escaped(s.push(c)) == json_escaped(s) + escape_char(c),
    decreases s.len(),
{
    if s.len() == 0 {
        assert(s.push(c).drop_first() =~= Seq::<char>::empty());
        assert(json_escaped(Seq::<char>::empty()) == Seq::<char>::empty());
        assert(json_escaped(s.push(c)) =~= escape_char(c));
    } else {
        lemma_json_escaped_append(s.drop_first(), c);
        assert(s.push(c).drop_first() =~= s.drop_first().push(c));
        assert(json_escaped(s.push(c)) =~= escape_char(s[0]) + (json_escaped(s.drop_first())
            + escape_char(c)));
    }
}

/// Escaped text reads back as the text it came from, and it holds no raw
/// newline, carriage return or tab.
pub proof fn lemma_json_escape_roundtrip(s: Seq<char>)
    ensures
        json_unescape(json_escaped(s)) == s,
        forall|i: int|
            0 <= i < json_escaped(s).len() ==> #[trigger] json_escaped(s)[i] != '\n'
                && json_escaped(s)[i] != '\r' && json_escaped(s)[i] != '\t',
    decreases s.len(),
{
    if s.len() > 0 {
        let rest = s.drop_first();
        lemma_json_escape_roundtrip(rest);
        let e = escape_char(s[0]);
        let t = json_escaped(s);
        assert(t == e + json_escaped(rest));
        if e.len() == 2 {
            assert(t[0] == '\\');
            assert(t.skip(2) =~= json_escaped(rest));
        } else {
            assert(t.skip(1) =~= json_escaped(rest));
        }
        assert(json_unescape(t) =~= s);
        assert forall|i: int| 0 <= i < t.len() implies #[trigger] t[i] != '\n' && t[i] != '\r'
            && t[i] != '\t' by {
            if i >= e.len() {
                assert(t[i] == json_escaped(rest)[i - e.len()]);
            }
        }
    }
}

/// The characters that the escaping rewrites: quote, backslash, newline,
/// carriage return and tab.
pub open spec fn is_escaped_char(c: char) -> bool {
    c == '"' || c == '\\' || c == '\n' || c == '\r' || c == '\t'
}

/// Every other character stands for itself, and a text without the five
/// rewritten characters comes out unchanged.
pub proof fn lemma_plain_text_unchanged(s: Seq<char>)
    ensures
        forall|c: char| !is_escaped_char(c) ==> #[trigger] escape_char(c) == seq![c],
        (forall|i: int| 0 <= i < s.len() ==> !is_escaped_char(#[trigger] s[i])) ==> json_escaped(s)
            == s,
    decreases s.len(),
{
    if s.len() > 0 {
        lemma_plain_text_unchanged(s.drop_first());
        if forall|i: int| 0 <= i < s.len() ==> !is_escaped_char(#[trigger] s[i]) {
            assert forall|i: int| 0 <= i < s.drop_first().len() implies !is_escaped_char(
                #[trigger] s.drop_first()[i],
            ) by {
                assert(s.drop_first()[i] == s[i + 1]);
            }
            assert(!is_escaped_char(s[0]));
            assert(json_escaped(s) =~= seq![s[0]] + s.drop_first());
        }
    }
}

/// A JSON string body (RFC 8259, section 7) written without `\u` escapes:
/// no raw quote or control character, and every backslash starts one of the
/// escapes `\"` `\\` `\/` `\b` `\f` `\n` `\r` `\t`.
pub open spec fn valid_json_body(t: Seq<char>) -> bool
    decreases t.len(),
{
    if t.len() == 0 {
        true
    } else if t[0] == '\\' {
        &&& t.len() >= 2
        &&& (t[1] == '"' || t[1] == '\\' || t[1] == '/' || t[1] == 'b' || t[1] == 'f' || t[1]
            == 'n' || t[1] == 'r' || t[1] == 't')
        &&& valid_json_body(t.skip(2))
    } else {
        &&& t[0] != '"'
        &&& t[0] >= ' '
        &&& valid_json_body(t.skip(1))
    }
}

/// The character a JSON escape `\c` stands for.
pub open spec fn json_escape_meaning(c: char) -> char {
    if c == 'b' {
        '\u{08}'
    } else if c == 'f' {
        '\u{0C}'
    } else if c == 'n' {
        '\n'
    } else if c == 'r' {
        '\r'
    } else if c == 't' {
        '\t'
    } else {
        c
    }
}

/// The characters a valid JSON string body stands for.
pub open spec fn json_decode(t: Seq<char>) -> Seq<char>
    decreases t.len(),
{
    if t.len() == 0 {
        Seq::empty()
    } else if t[0] == '\\' && t.len() >= 2 {
        seq![json_escape_meaning(t[1])] + json_decode(t.skip(2))
    } else {
        seq![t[0]] + json_decode(t.skip(1))
    }
}

/// For a name without control characters other than newline, carriage
/// return and tab (JSON has no short escape for the others, and they are
/// left as they are), the escaped text is a valid JSON string body, and a
/// JSON reader decodes it back to the name.
pub proof fn lemma_json_escape_is_json(s: Seq<char>)
    requires
        forall|i: int|
            0 <= i < s.len() ==> #[trigger] s[i] >= ' ' || s[i] == '\n' || s[i] == '\r' || s[i]
                == '\t',
    ensures
        valid_json_body(json_escaped(s)),
        json_decode(json_escaped(s)) == s,
    decreases s.len(),
{
    if s.len() > 0 {
        let rest = s.drop_first();
        assert forall|i: int| 0 <= i < rest.len() implies #[trigger] rest[i] >= ' ' || rest[i]
            == '\n' || rest[i] == '\r' || rest[i] == '\t' by {
            assert(rest[i] == s[i + 1]);
        }
        lemma_json_escape_is_json(rest);
        let e = escape_char(s[0]);
        let t = json_escaped(s);
        assert(t == e + json_escaped(rest));
        assert(s[0] >= ' ' || s[0] == '\n' || s[0] == '\r' || s[0] == '\t');
        if e.len() == 2 {
            assert(t[0] == '\\');
            assert(t.skip(2) =~= json_escaped(rest));
        } else {
            assert(t.skip(1) =~= json_escaped(rest));
        }
        assert(json_decode(t) =~= s);
    }
}

/// Escapes `value` for use inside a JSON string.
pub fn json_escape(value: &str) -> (r: String)
    ensures
        r@ == json_escaped(value@),
{
    let cs = to_chars(value);
    let mut out: Vec<char> = Vec::new();
    let mut i: usize = 0;
    assert(json_escaped(cs@.take(0)) =~= Seq::<char>::empty());
    while i < cs.len()
        invariant
            i <= cs@.len(),
            out@ == json_escaped(cs@.take(i as int)),
        decreases cs@.len() - i,
    {
        let c = cs[i];
        proof {
            lemma_json_escaped_append(cs@.take(i as int), c);
            assert(cs@.take(i + 1) =~= cs@.take(i as int).push(c));
        }
        if c == '"' {
            out.push('\\');
            out.push('"');
        } else if c == '\\' {
            out.push('\\');
            out.push('\\');
        } else if c == '\n' {
            out.push('\\');
            out.push('n');
        } else if c == '\r' {
            out.push('\\');
            out.push('r');
        } else if c == '\t' {
            out.push('\\');
            out.push('t');
        } else {
            out.push(c);
        }
        assert(out@ =~= json_escaped(cs@.take(i + 1)));
        i = i + 1;
    }
    assert(cs@.take(cs@.len() as int) =~= cs@);
    chars_to_string(&out)
}

} // verus!
