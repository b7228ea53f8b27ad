//! Framing of text-generation requests to the Gemini REST API and to an
//! Ollama server, and the reading of their replies into a generated text
//! or an error message.

use crate::text::{
    digit_char, is_trim_of, lemma_signed_decimal_round_trip, lemma_trimmed_is_trim, parsed_i32,
    render_i32, signed_decimal, strip_trailing, trim, trim_end_char, trimmed,
};
use vstd::prelude::*;

verus! {

/// A lower-case hexadecimal digit.
pub open spec fn hex_digit(d: nat) -> char {
    if d < 10 {
        digit_char(d)
    } else if d == 10 {
        'a'
    } else if d == 11 {
        'b'
    } else if d == 12 {
        'c'
    } else if d == 13 {
        'd'
    } else if d == 14 {
        'e'
    } else {
        'f'
    }
}

/// How serde_json writes one character inside a JSON string: the quote and
/// the backslash behind a backslash, backspace, form feed, line feed,
/// carriage return and tab as `\b \f \n \r \t`, the other characters below
/// U+0020 as `\u00xx` in lower-case hex, every other character as itself.
pub open spec fn json_escape(c: char) -> Seq<char> {
    let u = c as u32;
    if c == '"' {
        seq!['\\', '"']
    } else if c == '\\' {
        seq!['\\', '\\']
    } else if u == 0x08 {
        seq!['\\', 'b']
    } else if u == 0x0C {
        seq!['\\', 'f']
    } else if c == '\n' {
        seq!['\\', 'n']
    } else if c == '\r' {
        seq!['\\', 'r']
    } else if c == '\t' {
        seq!['\\', 't']
    } else if u < 0x20 {
        seq!['\\', 'u', '0', '0', hex_digit((u / 16) as nat), hex_digit((u % 16) as nat)]
    } else {
        seq![c]
    }
}

/// The characters of `s`, each escaped as inside a JSON string.
pub open spec fn json_escaped(s: Seq<char>) -> Seq<char>
    decreases s.len(),
{
    if s.len() == 0 {
        Seq::empty()
    } else {
        json_escape(s[0]) + json_escaped(s.drop_first())
    }
}

/// The JSON string literal that `serde_json::to_string` produces for `s`.
pub open spec fn json_quoted(s: Seq<char>) -> Seq<char> {
    seq!['"'] + json_escaped(s) + seq!['"']
}

/// The value of a hexadecimal digit (either case).
pub open spec fn hex_value(c: char) -> Option<nat> {
    if '0' <= c && c <= '9' {
        Some(((c as nat) - ('0' as nat)) as nat)
    } else if 'a' <= c && c <= 'f' {
        Some(((c as nat) - ('a' as nat) + 10) as nat)
    } else if 'A' <= c && c <= 'F' {
        Some(((c as nat) - ('A' as nat) + 10) as nat)
    } else {
        None
    }
}

/// The characters that the contents of a JSON string literal (the text between
/// its quotes) stand for, as RFC 8259 reads them: a character other than a
/// quote, a backslash or a control character stands for itself; `\"`, `\\`,
/// `\/`, `\b`, `\f`, `\n`, `\r`, `\t` and `\uXXXX` (outside the surrogates)
/// stand for one character each; anything else is not valid JSON (`None`).
pub open spec fn json_unescaped(t: Seq<char>) -> Option<Seq<char>>
    decreases t.len(),
{
    if t.len() == 0 {
        Some(Seq::empty())
    } else if t[0] == '"' || (t[0] as u32) < 0x20 {
        None
    } else if t[0] != '\\' {
        match json_unescaped(t.drop_first()) {
            Some(r) => Some(seq![t[0]] + r),
            None => None,
        }
    } else if t.len() < 2 {
        None
    } else {
        let e = t[1];
        let single: Option<char> = if e == '"' || e == '\\' || e == '/' {
            Some(e)
        } else if e == 'b' {
            Some('\u{8}')
        } else if e == 'f' {
            Some('\u{c}')
        } else if e == 'n' {
            Some('\n')
        } else if e == 'r' {
            Some('\r')
        } else if e == 't' {
            Some('\t')
        } else {
            None
        };
        match single {
            Some(c) => match json_unescaped(t.skip(2)) {
                Some(r) => Some(seq![c] + r),
                None => None,
            },
            None => if e == 'u' && t.len() >= 6 && hex_value(t[2]) is Some && hex_value(t[3]) is Some
                && hex_value(t[4]) is Some && hex_value(t[5]) is Some {
                let v = hex_value(t[2])->0 * 4096 + hex_value(t[3])->0 * 256 + hex_value(t[4])->0
                    * 16 + hex_value(t[5])->0;
                if 0xD800 <= v && v <= 0xDFFF {
                    None
                } else {
                    match json_unescaped(t.skip(6)) {
                        Some(r) => Some(seq![v as char] + r),
                        None => None,
                    }
                }
            } else {
                None
            },
        }
    }
}

/// The string that a JSON string literal stands for, or `None` when `q` is
/// not a valid JSON string literal.
pub open spec fn json_string_value(q: Seq<char>) -> Option<Seq<char>> {
    if q.len() >= 2 && q[0] == '"' && q[q.len() - 1] == '"' {
        json_unescaped(q.subrange(1, q.len() - 1))
    } else {
        None
    }
}

proof fn lemma_hex_digit_value(d: nat)
    requires
        d < 16,
    ensures
        hex_value(hex_digit(d)) == Some(d),
{
}

proof fn lemma_unescape_one(c: char, rest: Seq<char>)
    ensures
        json_unescaped(json_escape(c) + rest) == match json_unescaped(rest) {
            Some(r) => Some(seq![c] + r),
            None => None::<Seq<char>>,
        },
{
    let e = json_escape(c);
    let t = e + rest;
    let u = c as u32;
    if c == '"' || c == '\\' || u == 0x08 || u == 0x0C || c == '\n' || c == '\r' || c == '\t' {
        assert(t[0] == '\\');
        assert(t.skip(2) =~= rest);
        if u == 0x08 {
            assert(c == '\u{8}');
        }
        if u == 0x0C {
            assert(c == '\u{c}');
        }
    } else if u < 0x20 {
        lemma_hex_digit_value((u / 16) as nat);
        lemma_hex_digit_value((u % 16) as nat);
        assert(t[0] == '\\');
        assert(t[1] == 'u');
        assert(t[2] == '0');
        assert(t[3] == '0');
        assert(t.skip(6) =~= rest);
        let v = hex_value(t[2])->0 * 4096 + hex_value(t[3])->0 * 256 + hex_value(t[4])->0 * 16
            + hex_value(t[5])->0;
        assert(v == u);
        assert((v as char) == c);
    } else {
        assert(t[0] == c);
        assert(t.drop_first() =~= rest);
    }
}

/// Reading the escaped form of a string back gives the string.
pub proof fn lemma_json_escaped_round_trip(s: Seq<char>)
    ensures
        json_unescaped(json_escaped(s)) == Some(s),
    decreases s.len(),
{
    if s.len() > 0 {
        lemma_json_escaped_round_trip(s.drop_first());
        lemma_unescape_one(s[0], json_escaped(s.drop_first()));
        assert(seq![s[0]] + s.drop_first() =~= s);
    }
}

/// The JSON literal that serde_json writes for a string is a valid JSON
/// string literal that stands for exactly that string.
pub proof fn lemma_json_quoted_round_trip(s: Seq<char>)
    ensures
        json_string_value(json_quoted(s)) == Some(s),
{
    lemma_json_escaped_round_trip(s);
    let q = json_quoted(s);
    assert(q.subrange(1, q.len() - 1) =~= json_escaped(s));
}

/// Calls `serde_json::to_string` on a string slice. The contract states the
/// escaping of serde_json's `format_escaped_str` (its `ESCAPE` table and
/// `write_char_escape`): the string in double quotes, with the escapes of
/// `json_escape`. Serialising a `str` into a `Vec` does not fail, so the
/// error arm is never taken.
#[verifier::external_body]
fn quote_json(s: &str) -> (r: String)
    ensures
        r@ == json_quoted(s@),
{
    match serde_json::to_string(s) {
        Ok(t) => t,
        Err(_) => String::new(),
    }
}

/// Where a Gemini request goes.
pub const GEMINI_ENDPOINT_PREFIX: &'static str = "https://generativelanguage.googleapis.com/v1beta/models/";

pub const GEMINI_ENDPOINT_ACTION: &'static str = ":generateContent?key=";

/// The URL of a Gemini `generateContent` call for `model`, authenticated by `api_key`.
pub open spec fn gemini_url(model: Seq<char>, api_key: Seq<char>) -> Seq<char> {
    GEMINI_ENDPOINT_PREFIX@ + model + GEMINI_ENDPOINT_ACTION@ + api_key
}

/// Builds the URL of a Gemini `generateContent` call.
pub fn cloud_endpoint(model: &str, api_key: &str) -> (r: String)
    ensures
        r@ == gemini_url(model@, api_key@),
{
    let mut r = String::from_str(GEMINI_ENDPOINT_PREFIX);
    r.append(model);
    r.append(GEMINI_ENDPOINT_ACTION);
    r.append(api_key);
    r
}

/// The URL names the requested model and key: it is the `models/` prefix,
/// the model exactly, `:generateContent?key=`, then the key exactly.
pub proof fn lemma_gemini_url_names_model(model: Seq<char>, api_key: Seq<char>)
    ensures
        gemini_url(model, api_key) == "https://generativelanguage.googleapis.com/v1beta/models/"@
            + model + ":generateContent?key="@ + api_key,
{
    reveal_strlit("https://generativelanguage.googleapis.com/v1beta/models/");
    reveal_strlit(":generateContent?key=");
}

/// Two different models give two different URLs for the same key.
pub proof fn lemma_gemini_url_distinguishes_models(m1: Seq<char>, m2: Seq<char>, api_key: Seq<char>)
    requires
        m1 != m2,
    ensures
        gemini_url(m1, api_key) != gemini_url(m2, api_key),
{
    lemma_gemini_url_names_model(m1, api_key);
    lemma_gemini_url_names_model(m2, api_key);
    let p = "https://generativelanguage.googleapis.com/v1beta/models/"@;
    let u1 = gemini_url(m1, api_key);
    let u2 = gemini_url(m2, api_key);
    let a = ":generateContent?key="@;
    assert(u1.len() == p.len() + m1.len() + a.len() + api_key.len());
    assert(u2.len() == p.len() + m2.len() + a.len() + api_key.len());
    if u1 == u2 {
        assert(m1.len() == m2.len());
        assert(u1.subrange(p.len() as int, (p.len() + m1.len()) as int) =~= m1);
        assert(u2.subrange(p.len() as int, (p.len() + m2.len()) as int) =~= m2);
    }
}

pub const GEMINI_BODY_OPEN: &'static str = "{\"contents\":[{\"parts\":[{\"text\":";

pub const GEMINI_BODY_CLOSE: &'static str = "}]}],\"generationConfig\":{\"maxOutputTokens\":8192,\"temperature\":0.7}}";

/// The JSON body of a Gemini request: one content part holding the prompt,
/// sampled at temperature 0.7 with at most 8192 output tokens.
pub open spec fn gemini_body(prompt: Seq<char>) -> Seq<char> {
    GEMINI_BODY_OPEN@ + json_quoted(prompt) + GEMINI_BODY_CLOSE@
}

/// Builds the JSON body of a Gemini request for `prompt`.
pub fn cloud_request_body(prompt: &str) -> (r: String)
    ensures
        r@ == gemini_body(prompt@),
{
    let mut r = String::from_str(GEMINI_BODY_OPEN);
    let quoted = quote_json(prompt);
    r.append(quoted.as_str());
    r.append(GEMINI_BODY_CLOSE);
    r
}

/// The Gemini body is the JSON object whose single content part's `text`
/// member is a JSON string literal standing for the prompt exactly.
pub proof fn lemma_gemini_body_holds_prompt(prompt: Seq<char>)
    ensures
        exists|q: Seq<char>|
            gemini_body(prompt) == "{\"contents\":[{\"parts\":[{\"text\":"@ + q
                + "}]}],\"generationConfig\":{\"maxOutputTokens\":8192,\"temperature\":0.7}}"@
                && #[trigger] json_string_value(q) == Some(prompt),
{
    reveal_strlit("{\"contents\":[{\"parts\":[{\"text\":");
    reveal_strlit("}]}],\"generationConfig\":{\"maxOutputTokens\":8192,\"temperature\":0.7}}");
    lemma_json_quoted_round_trip(prompt);
    let q = json_quoted(prompt);
    assert(json_string_value(q) == Some(prompt));
}

pub const OLLAMA_GENERATE_PATH: &'static str = "/api/generate";

/// The URL of the generate call of the Ollama server at `base_url`: the base
/// without its trailing slashes, then `/api/generate`.
pub open spec fn ollama_url(base_url: Seq<char>) -> Seq<char> {
    strip_trailing(base_url, '/') + OLLAMA_GENERATE_PATH@
}

/// Builds the URL of the generate call of an Ollama server.
pub fn ollama_endpoint(base_url: &str) -> (r: String)
    ensures
        r@ == ollama_url(base_url@),
{
    let mut r = trim_end_char(base_url, '/');
    r.append(OLLAMA_GENERATE_PATH);
    r
}

/// The Ollama URL is a prefix of the base URL that does not end in `/`,
/// followed by `/api/generate`; only slashes are dropped from the base.
pub proof fn lemma_ollama_url_shape(base_url: Seq<char>)
    ensures
        exists|p: Seq<char>|
            ollama_url(base_url) == p + "/api/generate"@ && #[trigger] base_url.take(p.len() as int)
                == p && p.len() <= base_url.len() && (forall|k: int|
                p.len() <= k < base_url.len() ==> #[trigger] base_url[k] == '/') && (p.len() > 0
                ==> p.last() != '/'),
{
    crate::text::lemma_strip_trailing_prefix(base_url, '/');
    let p = strip_trailing(base_url, '/');
    assert(base_url.take(p.len() as int) == p);
}

/// Trailing slashes of the configured base URL do not change where an
/// Ollama request goes.
pub proof fn lemma_ollama_url_ignores_trailing_slash(base_url: Seq<char>)
    ensures
        ollama_url(base_url.push('/')) == ollama_url(base_url),
{
    assert(base_url.push('/').drop_last() =~= base_url);
}

pub const OLLAMA_BODY_MODEL: &'static str = "{\"model\":";

pub const OLLAMA_BODY_OPTIONS: &'static str = ",\"options\":{\"num_predict\":";

pub const OLLAMA_BODY_TEMPERATURE: &'static str = ",\"temperature\":";

pub const OLLAMA_BODY_PROMPT: &'static str = "},\"prompt\":";

pub const OLLAMA_BODY_CLOSE: &'static str = ",\"stream\":false,\"think\":false}";

/// The JSON body of an Ollama generate request: the model, the sampling
/// options, the prompt, no streaming, and thinking turned off so that the
/// answer lands in `response`. `temperature` is the JSON text of the
/// sampling temperature.
pub open spec fn ollama_body(
    prompt: Seq<char>,
    model: Seq<char>,
    temperature: Seq<char>,
    num_predict: int,
) -> Seq<char> {
    OLLAMA_BODY_MODEL@ + json_quoted(model) + OLLAMA_BODY_OPTIONS@ + signed_decimal(num_predict)
        + OLLAMA_BODY_TEMPERATURE@ + temperature + OLLAMA_BODY_PROMPT@ + json_quoted(prompt)
        + OLLAMA_BODY_CLOSE@
}

/// The Ollama body is the JSON object with members `model` and `prompt`
/// that are JSON string literals standing for the model and the prompt
/// exactly, `options` holding `num_predict` as decimal text that reads back as
/// the number and the given temperature text, and `stream` and `think` false.
pub proof fn lemma_ollama_body_members(
    prompt: Seq<char>,
    model: Seq<char>,
    temperature: Seq<char>,
    num_predict: i32,
)
    ensures
        exists|qm: Seq<char>, qp: Seq<char>, n: Seq<char>|
            ollama_body(prompt, model, temperature, num_predict as int) == "{\"model\":"@ + qm
                + ",\"options\":{\"num_predict\":"@ + n + ",\"temperature\":"@ + temperature
                + "},\"prompt\":"@ + qp + ",\"stream\":false,\"think\":false}"@
                && #[trigger] json_string_value(qm) == Some(model)
                && #[trigger] json_string_value(qp) == Some(prompt)
                && #[trigger] parsed_i32(n) == Some(num_predict),
{
    reveal_strlit("{\"model\":");
    reveal_strlit(",\"options\":{\"num_predict\":");
    reveal_strlit(",\"temperature\":");
    reveal_strlit("},\"prompt\":");
    reveal_strlit(",\"stream\":false,\"think\":false}");
    lemma_json_quoted_round_trip(prompt);
    lemma_json_quoted_round_trip(model);
    lemma_signed_decimal_round_trip(num_predict);
    let qm = json_quoted(model);
    let qp = json_quoted(prompt);
    let n = signed_decimal(num_predict as int);
    assert(json_string_value(qm) == Some(model));
    assert(json_string_value(qp) == Some(prompt));
    assert(parsed_i32(n) == Some(num_predict));
}

/// Builds the JSON body of an Ollama generate request.
pub fn ollama_request_body(prompt: &str, model: &str, temperature: &str, num_predict: i32) -> (r:
    String)
    ensures
        r@ == ollama_body(prompt@, model@, temperature@, num_predict as int),
{
    let mut r = String::from_str(OLLAMA_BODY_MODEL);
    let quoted_model = quote_json(model);
    r.append(quoted_model.as_str());
    r.append(OLLAMA_BODY_OPTIONS);
    let n = render_i32(num_predict);
    r.append(n.as_str());
    r.append(OLLAMA_BODY_TEMPERATURE);
    r.append(temperature);
    r.append(OLLAMA_BODY_PROMPT);
    let quoted_prompt = quote_json(prompt);
    r.append(quoted_prompt.as_str());
    r.append(OLLAMA_BODY_CLOSE);
    r
}

/// The service that generates the text.
#[derive(Clone, Copy, Debug)]
pub enum Provider {
    /// The Gemini REST API (cloud mode).
    Gemini,
    /// A local Ollama server (local mode).
    Ollama,
}

/// What serde_json reads from a Gemini reply body: `Err` with the parser's
/// error text when the body is not JSON, otherwise the string at
/// `candidates[0].content.parts[0].text`, if there is one.
pub uninterp spec fn gemini_reply_text(body: Seq<char>) -> Result<Option<Seq<char>>, Seq<char>>;

/// What serde_json reads from an Ollama reply body: `Err` with the parser's
/// error text when the body is not JSON, otherwise the string at `response`,
/// if there is one.
pub uninterp spec fn ollama_reply_text(body: Seq<char>) -> Result<Option<Seq<char>>, Seq<char>>;

/// What a JSON reply held at the place where the generated text belongs.
enum JsonReply {
    /// The reply was not JSON; the text is the parser's error.
    Invalid(String),
    /// The reply was JSON but held no string there.
    Missing,
    /// The string found there.
    Text(String),
}

spec fn reply_view(r: JsonReply) -> Result<Option<Seq<char>>, Seq<char>> {
    match r {
        JsonReply::Invalid(e) => Err(e@),
        JsonReply::Missing => Ok(None),
        JsonReply::Text(t) => Ok(Some(t@)),
    }
}

/// Parses a Gemini reply body with `serde_json::from_str` into a
/// `serde_json::Value` and takes `candidates[0].content.parts[0].text` with
/// `Value`'s indexing (which gives `Null` where a key or position is absent)
/// and `Value::as_str`. The contract names the result `gemini_reply_text` of
/// the body; the parser's error text is its `Display`.
#[verifier::external_body]
fn read_gemini_reply(body: &str) -> (r: JsonReply)
    ensures
        reply_view(r) == gemini_reply_text(body@),
{
    match serde_json::from_str::<serde_json::Value>(body) {
        Err(e) => JsonReply::Invalid(e.to_string()),
        Ok(v) => match v["candidates"][0]["content"]["parts"][0]["text"].as_str() {
            Some(t) => JsonReply::Text(t.to_string()),
            None => JsonReply::Missing,
        },
    }
}

/// Parses an Ollama reply body with `serde_json::from_str` into a
/// `serde_json::Value` and takes `response` with `Value`'s indexing and
/// `Value::as_str`. The contract names the result `ollama_reply_text` of the
/// body; the parser's error text is its `Display`.
#[verifier::external_body]
fn read_ollama_reply(body: &str) -> (r: JsonReply)
    ensures
        reply_view(r) == ollama_reply_text(body@),
{
    match serde_json::from_str::<serde_json::Value>(body) {
        Err(e) => JsonReply::Invalid(e.to_string()),
        Ok(v) => match v["response"].as_str() {
            Some(t) => JsonReply::Text(t.to_string()),
            None => JsonReply::Missing,
        },
    }
}

/// How one HTTP exchange with the service went.
pub enum Exchange {
    /// The request could not be sent; the text is the transport error.
    SendFailed(String),
    /// The response body could not be read; the text is the error.
    ReadFailed(String),
    /// A response arrived.
    Answered {
        /// Whether the status is a success (2xx).
        success: bool,
        /// The status as displayed, e.g. "404 Not Found".
        status: String,
        /// The response body.
        body: String,
    },
}

/// What the provider's reply body holds where the generated text belongs.
pub open spec fn reply_text(provider: Provider, body: Seq<char>) -> Result<Option<Seq<char>>, Seq<char>> {
    match provider {
        Provider::Gemini => gemini_reply_text(body),
        Provider::Ollama => ollama_reply_text(body),
    }
}

/// The characters of a result of strings.
pub open spec fn result_view(r: Result<String, String>) -> Result<Seq<char>, Seq<char>> {
    match r {
        Ok(t) => Ok(t@),
        Err(e) => Err(e@),
    }
}

/// The outcome of a generation call: the generated text (trimmed for
/// Ollama), or the error message for the step that failed.
pub open spec fn generation_outcome(provider: Provider, url: Seq<char>, exchange: Exchange) -> Result<
    Seq<char>,
    Seq<char>,
> {
    let gemini = provider == Provider::Gemini;
    match exchange {
        Exchange::SendFailed(e) => Err(
            if gemini {
                "HTTP request failed: "@ + e@
            } else {
                "Could not reach Ollama at "@ + url + ". Is the Ollama server running? ("@ + e@
                    + ")"@
            },
        ),
        Exchange::ReadFailed(e) => Err(
            if gemini {
                "Failed to read response: "@ + e@
            } else {
                "Failed to read Ollama response: "@ + e@
            },
        ),
        Exchange::Answered { success, status, body } => if !success {
            Err(
                (if gemini {
                    "API error ("@
                } else {
                    "Ollama API error ("@
                }) + status@ + "): "@ + body@,
            )
        } else {
            match reply_text(provider, body@) {
                Err(e) => Err(
                    (if gemini {
                        "Failed to parse JSON: "@
                    } else {
                        "Failed to parse Ollama JSON: "@
                    }) + e,
                ),
                Ok(None) => Err(
                    (if gemini {
                        "Unexpected API response structure: "@
                    } else {
                        "Unexpected Ollama response structure: "@
                    }) + body@,
                ),
                Ok(Some(t)) => Ok(
                    if gemini {
                        t
                    } else {
                        trimmed(t)
                    },
                ),
            }
        },
    }
}

/// A successful Ollama reply whose `response` is the string `t` gives `t`
/// with its surrounding whitespace removed and every inner character kept.
pub proof fn lemma_ollama_reply_is_trimmed_text(url: Seq<char>, status: String, body: String, t: Seq<char>)
    requires
        ollama_reply_text(body@) == Ok::<Option<Seq<char>>, Seq<char>>(Some(t)),
    ensures
        generation_outcome(Provider::Ollama, url, Exchange::Answered { success: true, status, body })
            matches Ok(r) && is_trim_of(r, t),
{
    lemma_trimmed_is_trim(t);
}

/// A successful Gemini reply whose text member is the string `t` gives `t`
/// exactly.
pub proof fn lemma_gemini_reply_is_text(url: Seq<char>, status: String, body: String, t: Seq<char>)
    requires
        gemini_reply_text(body@) == Ok::<Option<Seq<char>>, Seq<char>>(Some(t)),
    ensures
        generation_outcome(Provider::Gemini, url, Exchange::Answered { success: true, status, body })
            == Ok::<Seq<char>, Seq<char>>(t),
{
}

/// Generation succeeds only on a successful status whose reply holds the
/// text, and every failure to send or read is an error.
pub proof fn lemma_generation_ok_needs_text(provider: Provider, url: Seq<char>, exchange: Exchange)
    ensures
        generation_outcome(provider, url, exchange) is Ok ==> (exchange matches Exchange::Answered {
            success,
            body,
            ..
        } && success && reply_text(provider, body@) matches Ok(Some(_))),
{
}

fn joined(a: &str, b: &str) -> (r: String)
    ensures
        r@ == a@ + b@,
{
    let mut r = String::from_str(a);
    r.append(b);
    r
}

/// Reads one exchange with the generation service into the generated text
/// or an error message; `url` is where the request was sent. A successful
/// reply body is parsed as JSON here, for the provider's place of the text.
pub fn generation_result(provider: Provider, url: &str, exchange: Exchange) -> (r: Result<
    String,
    String,
>)
    ensures
        result_view(r) == generation_outcome(provider, url@, exchange),
{
    let gemini = match provider {
        Provider::Gemini => true,
        Provider::Ollama => false,
    };
    match exchange {
        Exchange::SendFailed(e) => {
            if gemini {
                Err(joined("HTTP request failed: ", e.as_str()))
            } else {
                let mut m = joined("Could not reach Ollama at ", url);
                m.append(". Is the Ollama server running? (");
                m.append(e.as_str());
                m.append(")");
                Err(m)
            }
        },
        Exchange::ReadFailed(e) => {
            if gemini {
                Err(joined("Failed to read response: ", e.as_str()))
            } else {
                Err(joined("Failed to read Ollama response: ", e.as_str()))
            }
        },
        Exchange::Answered { success, status, body } => {
            if !success {
                let mut m = if gemini {
                    String::from_str("API error (")
                } else {
                    String::from_str("Ollama API error (")
                };
                m.append(status.as_str());
                m.append("): ");
                m.append(body.as_str());
                Err(m)
            } else {
                let reply = if gemini {
                    read_gemini_reply(body.as_str())
                } else {
                    read_ollama_reply(body.as_str())
                };
                match reply {
                    JsonReply::Invalid(e) => {
                        if gemini {
                            Err(joined("Failed to parse JSON: ", e.as_str()))
                        } else {
                            Err(joined("Failed to parse Ollama JSON: ", e.as_str()))
                        }
                    },
                    JsonReply::Missing => {
                        if gemini {
                            Err(joined("Unexpected API response structure: ", body.as_str()))
                        } else {
                            Err(joined("Unexpected Ollama response structure: ", body.as_str()))
                        }
                    },
                    JsonReply::Text(t) => {
                        if gemini {
                            Ok(t)
                        } else {
                            Ok(trim(t.as_str()))
                        }
                    },
                }
            }
        },
    }
}

} // verus!
