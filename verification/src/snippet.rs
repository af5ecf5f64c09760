//! Snippet generation: a pure function from the typed configuration to the
//! byte buffer the injector inserts.
//!
//! The snippet is a fixed loader script around two computed parts: the CDN
//! URL of the browser agent, and the configuration serialized as a JSON
//! object.  Every non-ASCII character of the output is escaped as one or two
//! `\uXXXX` UTF-16 code-unit escapes: the host page's encoding is unknown at
//! injection time, so raw multi-byte sequences could be misread or could
//! break out of the script context.

use vstd::prelude::*;
use vstd::string::{StrSliceExecFns, StringExecFns};
use vstd::utf8::encode_utf8;

use crate::config::{Configuration, Error, JsonFragment, PrivacyLevel, RumConfiguration};

verus! {

/// Relies on `String::push`: appends exactly the given character.
pub assume_specification[ String::push ](s: &mut String, ch: char)
    ensures
        final(s)@ == old(s)@.push(ch),
;

/// Opening of the loader script, up to the CDN URL.
pub const SNIPPET_PREFIX: &'static str = "\n<script>\n(function(h,o,u,n,d) {\n  h=h[d]=h[d]||{q:[],onReady:function(c){h.q.push(c)}}\n  d=o.createElement(u);d.async=1;d.src=n\n  n=o.getElementsByTagName(u)[0];n.parentNode.insertBefore(d,n)\n})(window,document,'script','";

/// Between the CDN URL and the serialized configuration.
pub const SNIPPET_MID: &'static str = "','DD_RUM')\nwindow.DD_RUM.onReady(function() {\n  window.DD_RUM.init(";

/// Closing of the loader script, after the serialized configuration.
pub const SNIPPET_SUFFIX: &'static str = ");\n});\n</script>\n";

/// The lowercase hexadecimal digit for `v`, `0 <= v < 16`.
pub open spec fn hex_char(v: int) -> char {
    if v == 0 {
        '0'
    } else if v == 1 {
        '1'
    } else if v == 2 {
        '2'
    } else if v == 3 {
        '3'
    } else if v == 4 {
        '4'
    } else if v == 5 {
        '5'
    } else if v == 6 {
        '6'
    } else if v == 7 {
        '7'
    } else if v == 8 {
        '8'
    } else if v == 9 {
        '9'
    } else if v == 10 {
        'a'
    } else if v == 11 {
        'b'
    } else if v == 12 {
        'c'
    } else if v == 13 {
        'd'
    } else if v == 14 {
        'e'
    } else {
        'f'
    }
}

/// `\uXXXX`, the four-digit lowercase escape of one UTF-16 code unit.
pub open spec fn unicode_escape(u: int) -> Seq<char> {
    seq![
        '\\',
        'u',
        hex_char(u / 0x1000 % 0x10),
        hex_char(u / 0x100 % 0x10),
        hex_char(u / 0x10 % 0x10),
        hex_char(u % 0x10),
    ]
}

/// How one character of a JSON string value is emitted: the two-character
/// escapes JSON requires, `\uXXXX` escapes for other control characters and
/// for everything non-ASCII (as UTF-16 code units, two escapes beyond the
/// basic plane), and the character itself otherwise.
pub open spec fn escape_json_char(c: char) -> Seq<char> {
    let u = c as int;
    if u == 34 {
        seq!['\\', '"']
    } else if u == 92 {
        seq!['\\', '\\']
    } else if u == 8 {
        seq!['\\', 'b']
    } else if u == 9 {
        seq!['\\', 't']
    } else if u == 10 {
        seq!['\\', 'n']
    } else if u == 12 {
        seq!['\\', 'f']
    } else if u == 13 {
        seq!['\\', 'r']
    } else if u < 32 {
        unicode_escape(u)
    } else if u < 128 {
        seq![c]
    } else if u < 0x10000 {
        unicode_escape(u)
    } else {
        unicode_escape(0xd800 + (u - 0x10000) / 0x400) + unicode_escape(
            0xdc00 + (u - 0x10000) % 0x400,
        )
    }
}

/// JSON-string escaping of a whole character sequence.
pub open spec fn escape_json(s: Seq<char>) -> Seq<char>
    decreases s.len(),
{
    if s.len() == 0 {
        Seq::empty()
    } else {
        escape_json(s.drop_last()) + escape_json_char(s.last())
    }
}

/// How one character of an already-JSON fragment is emitted: ASCII verbatim,
/// everything else as `\uXXXX` UTF-16 escapes.
pub open spec fn escape_ascii_char(c: char) -> Seq<char> {
    let u = c as int;
    if u < 128 {
        seq![c]
    } else if u < 0x10000 {
        unicode_escape(u)
    } else {
        unicode_escape(0xd800 + (u - 0x10000) / 0x400) + unicode_escape(
            0xdc00 + (u - 0x10000) % 0x400,
        )
    }
}

/// ASCII-only rendering of a whole character sequence.
pub open spec fn escape_ascii(s: Seq<char>) -> Seq<char>
    decreases s.len(),
{
    if s.len() == 0 {
        Seq::empty()
    } else {
        escape_ascii(s.drop_last()) + escape_ascii_char(s.last())
    }
}

/// A JSON string: quotes around the escaped content.
pub open spec fn quoted(s: Seq<char>) -> Seq<char> {
    seq!['"'] + escape_json(s) + seq!['"']
}

/// A JSON boolean.
pub open spec fn bool_chars(b: bool) -> Seq<char> {
    if b {
        "true"@
    } else {
        "false"@
    }
}

/// The word a privacy level serializes to.
pub open spec fn privacy_chars(p: PrivacyLevel) -> Seq<char> {
    match p {
        PrivacyLevel::Allow => "allow"@,
        PrivacyLevel::Mask => "mask"@,
        PrivacyLevel::MaskUserInput => "mask-user-input"@,
    }
}

/// Decimal digits of `n`, most significant first.
pub open spec fn dec_chars(n: nat) -> Seq<char>
    decreases n,
{
    if n < 10 {
        seq![hex_char(n as int)]
    } else {
        dec_chars(n / 10) + seq![hex_char((n % 10) as int)]
    }
}

/// An optional string field: label plus quoted value, or nothing.
pub open spec fn str_field(label: Seq<char>, v: Option<String>) -> Seq<char> {
    match v {
        Some(s) => label + quoted(s@),
        None => Seq::empty(),
    }
}

/// An optional boolean field: label plus `true`/`false`, or nothing.
pub open spec fn bool_field(label: Seq<char>, v: Option<bool>) -> Seq<char> {
    match v {
        Some(b) => label + bool_chars(b),
        None => Seq::empty(),
    }
}

/// An optional privacy-level field: label plus the quoted word, or nothing.
pub open spec fn privacy_field(label: Seq<char>, v: Option<PrivacyLevel>) -> Seq<char> {
    match v {
        Some(p) => label + seq!['"'] + privacy_chars(p) + seq!['"'],
        None => Seq::empty(),
    }
}

/// An optional JSON-fragment field: label plus the fragment, ASCII-escaped,
/// or nothing.
pub open spec fn frag_field(label: Seq<char>, v: Option<JsonFragment>) -> Seq<char> {
    match v {
        Some(f) => label + escape_ascii(f.0@),
        None => Seq::empty(),
    }
}

/// One forward-compatible entry: `,"key":value`.
pub open spec fn entry_chars(e: (String, JsonFragment)) -> Seq<char> {
    seq![','] + quoted(e.0@) + seq![':'] + escape_ascii(e.1.0@)
}

/// The forward-compatible entries, in the order given.
pub open spec fn other_chars(entries: Seq<(String, JsonFragment)>) -> Seq<char>
    decreases entries.len(),
{
    if entries.len() == 0 {
        Seq::empty()
    } else {
        other_chars(entries.drop_last()) + entry_chars(entries.last())
    }
}

/// The identifier part of the emitted object: the required fields and the
/// optional string fields, in their fixed order.
pub open spec fn rum_ids_chars(r: RumConfiguration) -> Seq<char> {
    "{\"applicationId\":"@ + quoted(r.application_id@) + ",\"clientToken\":"@ + quoted(
        r.client_token@,
    ) + str_field(",\"site\":"@, r.site) + str_field(",\"service\":"@, r.service) + str_field(
        ",\"env\":"@,
        r.env,
    ) + str_field(",\"version\":"@, r.version)
}

/// The option part of the emitted object: the tracking flags, the privacy
/// level, and the sample rates, in their fixed order.
pub open spec fn rum_opts_chars(r: RumConfiguration) -> Seq<char> {
    bool_field(",\"trackUserInteractions\":"@, r.track_user_interactions) + bool_field(
        ",\"trackResources\":"@,
        r.track_resources,
    ) + bool_field(",\"trackLongTask\":"@, r.track_long_task) + privacy_field(
        ",\"defaultPrivacyLevel\":"@,
        r.default_privacy_level,
    ) + frag_field(",\"sessionSampleRate\":"@, r.session_sample_rate) + frag_field(
        ",\"sessionReplaySampleRate\":"@,
        r.session_replay_sample_rate,
    )
}

/// The configuration as the JSON object the snippet passes to `init`: the
/// required identifiers first, then each present optional field under its
/// fixed camel-case name, then the forward-compatible entries verbatim.
pub open spec fn rum_json_chars(r: RumConfiguration) -> Seq<char> {
    rum_ids_chars(r) + rum_opts_chars(r) + other_chars(r.other@) + seq!['}']
}

/// Is there a CDN region for this site?
pub open spec fn has_region(site: Seq<char>) -> bool {
    ||| site == "datadoghq.com"@
    ||| site == "us3.datadoghq.com"@
    ||| site == "us5.datadoghq.com"@
    ||| site == "datadoghq.eu"@
    ||| site == "ap1.datadoghq.com"@
}

/// The CDN region of a site that has one.
pub open spec fn region_chars(site: Seq<char>) -> Seq<char> {
    if site == "datadoghq.com"@ {
        "us1"@
    } else if site == "us3.datadoghq.com"@ {
        "us3"@
    } else if site == "us5.datadoghq.com"@ {
        "us5"@
    } else if site == "datadoghq.eu"@ {
        "eu1"@
    } else {
        "ap1"@
    }
}

/// The sites a snippet can be generated for.
pub open spec fn site_supported(site: Seq<char>) -> bool {
    site == "ddog-gov.com"@ || has_region(site)
}

/// The CDN URL of the browser agent for a supported site: the government
/// site has its own artifact name; every other supported site selects a
/// region directory.
pub open spec fn cdn_url_chars(major: nat, site: Seq<char>) -> Seq<char> {
    if site == "ddog-gov.com"@ {
        "https://www.datadoghq-browser-agent.com/datadog-rum-v"@ + dec_chars(major) + ".js"@
    } else {
        "https://www.datadoghq-browser-agent.com/"@ + region_chars(site) + "/v"@ + dec_chars(major)
            + "/datadog-rum.js"@
    }
}

/// The site the snippet is generated for: the configured one, or the default.
pub open spec fn effective_site(c: Configuration) -> Seq<char> {
    match c.rum.site {
        Some(s) => s@,
        None => "datadoghq.com"@,
    }
}

/// The whole snippet, as characters (all ASCII by construction).
pub open spec fn snippet_chars(c: Configuration) -> Seq<char> {
    SNIPPET_PREFIX@ + cdn_url_chars(c.major_version as nat, effective_site(c)) + SNIPPET_MID@
        + rum_json_chars(c.rum) + SNIPPET_SUFFIX@
}

/// The whole snippet, as the bytes `generate_snippet` returns.
pub open spec fn snippet_bytes(c: Configuration) -> Seq<u8> {
    encode_utf8(snippet_chars(c))
}

/// Executable form of [`hex_char`].
fn hex_char_of(v: u8) -> (c: char)
    requires
        v < 16,
    ensures
        c == hex_char(v as int),
{
    if v == 0 {
        '0'
    } else if v == 1 {
        '1'
    } else if v == 2 {
        '2'
    } else if v == 3 {
        '3'
    } else if v == 4 {
        '4'
    } else if v == 5 {
        '5'
    } else if v == 6 {
        '6'
    } else if v == 7 {
        '7'
    } else if v == 8 {
        '8'
    } else if v == 9 {
        '9'
    } else if v == 10 {
        'a'
    } else if v == 11 {
        'b'
    } else if v == 12 {
        'c'
    } else if v == 13 {
        'd'
    } else if v == 14 {
        'e'
    } else {
        'f'
    }
}

/// Append `\uXXXX` for one UTF-16 code unit.
fn push_unicode_escape(out: &mut String, u: u32)
    requires
        u < 0x10000,
    ensures
        final(out)@ == old(out)@ + unicode_escape(u as int),
{
    out.push('\\');
    out.push('u');
    out.push(hex_char_of((u / 0x1000 % 0x10) as u8));
    out.push(hex_char_of((u / 0x100 % 0x10) as u8));
    out.push(hex_char_of((u / 0x10 % 0x10) as u8));
    out.push(hex_char_of((u % 0x10) as u8));
    proof {
        assert(out@ =~= old(out)@ + unicode_escape(u as int));
    }
}

/// Append one character of a JSON string value, escaped.
fn push_json_char(out: &mut String, c: char)
    ensures
        final(out)@ == old(out)@ + escape_json_char(c),
{
    let u = c as u32;
    if u == 34 {
        out.push('\\');
        out.push('"');
    } else if u == 92 {
        out.push('\\');
        out.push('\\');
    } else if u == 8 {
        out.push('\\');
        out.push('b');
    } else if u == 9 {
        out.push('\\');
        out.push('t');
    } else if u == 10 {
        out.push('\\');
        out.push('n');
    } else if u == 12 {
        out.push('\\');
        out.push('f');
    } else if u == 13 {
        out.push('\\');
        out.push('r');
    } else if u < 32 {
        push_unicode_escape(out, u);
    } else if u < 128 {
        out.push(c);
    } else if u < 0x10000 {
        push_unicode_escape(out, u);
    } else {
        let v = u - 0x10000;
        push_unicode_escape(out, 0xd800 + v / 0x400);
        push_unicode_escape(out, 0xdc00 + v % 0x400);
    }
    proof {
        assert(out@ =~= old(out)@ + escape_json_char(c));
    }
}

/// Append one character of an already-JSON fragment: ASCII verbatim, the
/// rest escaped.
fn push_ascii_char(out: &mut String, c: char)
    ensures
        final(out)@ == old(out)@ + escape_ascii_char(c),
{
    let u = c as u32;
    if u < 128 {
        out.push(c);
    } else if u < 0x10000 {
        push_unicode_escape(out, u);
    } else {
        let v = u - 0x10000;
        push_unicode_escape(out, 0xd800 + v / 0x400);
        push_unicode_escape(out, 0xdc00 + v % 0x400);
    }
    proof {
        assert(out@ =~= old(out)@ + escape_ascii_char(c));
    }
}

/// The escaping of a prefix grows one character at a time.
proof fn lemma_escape_json_snoc(s: Seq<char>, i: int)
    requires
        0 <= i < s.len(),
    ensures
        escape_json(s.subrange(0, i + 1)) == escape_json(s.subrange(0, i)) + escape_json_char(
            s[i],
        ),
{
    let t = s.subrange(0, i + 1);
    assert(t.drop_last() =~= s.subrange(0, i));
    assert(t.last() == s[i]);
}

/// The ASCII-only rendering of a prefix grows one character at a time.
proof fn lemma_escape_ascii_snoc(s: Seq<char>, i: int)
    requires
        0 <= i < s.len(),
    ensures
        escape_ascii(s.subrange(0, i + 1)) == escape_ascii(s.subrange(0, i)) + escape_ascii_char(
            s[i],
        ),
{
    let t = s.subrange(0, i + 1);
    assert(t.drop_last() =~= s.subrange(0, i));
    assert(t.last() == s[i]);
}

/// The rendering of the forward-compatible entries grows one entry at a time.
proof fn lemma_other_chars_snoc(entries: Seq<(String, JsonFragment)>, i: int)
    requires
        0 <= i < entries.len(),
    ensures
        other_chars(entries.subrange(0, i + 1)) == other_chars(entries.subrange(0, i))
            + entry_chars(entries[i]),
{
    let t = entries.subrange(0, i + 1);
    assert(t.drop_last() =~= entries.subrange(0, i));
    assert(t.last() == entries[i]);
}

/// Append a whole JSON-escaped string value (without its quotes).
fn push_json_escaped(out: &mut String, s: &str)
    ensures
        final(out)@ == old(out)@ + escape_json(s@),
{
    let ghost out0 = out@;
    let n = s.unicode_len();
    proof {
        assert(s@.subrange(0, 0) =~= Seq::<char>::empty());
        assert(out@ =~= out0 + escape_json(s@.subrange(0, 0)));
    }
    let mut i: usize = 0;
    while i < n
        invariant
            i <= n,
            n == s@.len(),
            out@ == out0 + escape_json(s@.subrange(0, i as int)),
        decreases n - i,
    {
        proof {
            lemma_escape_json_snoc(s@, i as int);
        }
        let c = s.get_char(i);
        push_json_char(out, c);
        i = i + 1;
    }
    proof {
        assert(s@.subrange(0, n as int) =~= s@);
    }
}

/// Append a whole JSON fragment, ASCII-escaped.
fn push_ascii_escaped(out: &mut String, s: &str)
    ensures
        final(out)@ == old(out)@ + escape_ascii(s@),
{
    let ghost out0 = out@;
    let n = s.unicode_len();
    proof {
        assert(s@.subrange(0, 0) =~= Seq::<char>::empty());
        assert(out@ =~= out0 + escape_ascii(s@.subrange(0, 0)));
    }
    let mut i: usize = 0;
    while i < n
        invariant
            i <= n,
            n == s@.len(),
            out@ == out0 + escape_ascii(s@.subrange(0, i as int)),
        decreases n - i,
    {
        proof {
            lemma_escape_ascii_snoc(s@, i as int);
        }
        let c = s.get_char(i);
        push_ascii_char(out, c);
        i = i + 1;
    }
    proof {
        assert(s@.subrange(0, n as int) =~= s@);
    }
}

/// Append a quoted, escaped JSON string.
fn push_quoted(out: &mut String, s: &str)
    ensures
        final(out)@ == old(out)@ + quoted(s@),
{
    out.push('"');
    push_json_escaped(out, s);
    out.push('"');
    proof {
        assert(out@ =~= old(out)@ + quoted(s@));
    }
}

/// Append a JSON boolean.
fn push_bool(out: &mut String, b: bool)
    ensures
        final(out)@ == old(out)@ + bool_chars(b),
{
    if b {
        out.append("true");
    } else {
        out.append("false");
    }
}

/// Append a quoted privacy level.
fn push_privacy(out: &mut String, p: PrivacyLevel)
    ensures
        final(out)@ == old(out)@ + seq!['"'] + privacy_chars(p) + seq!['"'],
{
    out.push('"');
    match p {
        PrivacyLevel::Allow => out.append("allow"),
        PrivacyLevel::Mask => out.append("mask"),
        PrivacyLevel::MaskUserInput => out.append("mask-user-input"),
    }
    out.push('"');
}

/// Append the decimal digits of `n`.
fn push_u32_dec(out: &mut String, n: u32)
    ensures
        final(out)@ == old(out)@ + dec_chars(n as nat),
    decreases n,
{
    if n >= 10 {
        push_u32_dec(out, n / 10);
    }
    out.push(hex_char_of((n % 10) as u8));
    proof {
        assert(out@ =~= old(out)@ + dec_chars(n as nat));
    }
}

/// Character-by-character equality of two strings.
fn str_eq(a: &str, b: &str) -> (r: bool)
    ensures
        r == (a@ == b@),
{
    let n = a.unicode_len();
    let m = b.unicode_len();
    if n != m {
        return false;
    }
    let mut i: usize = 0;
    while i < n
        invariant
            i <= n,
            n == a@.len(),
            n == b@.len(),
            forall|j: int| 0 <= j < i ==> a@[j] == b@[j],
        decreases n - i,
    {
        if a.get_char(i) != b.get_char(i) {
            return false;
        }
        i = i + 1;
    }
    proof {
        assert(a@ =~= b@);
    }
    true
}

/// The CDN URL of the browser agent for `site`, or the configuration error
/// naming the unsupported site.
pub fn format_cdn_url(major_version: u32, site: &str) -> (r: Result<String, Error>)
    ensures
        site_supported(site@) ==> (r matches Ok(u) && u@ == cdn_url_chars(
            major_version as nat,
            site@,
        )),
        !site_supported(site@) ==> (r matches Err(e) && e == Error::UnsupportedSite(
            spec_site_string(e),
        ) && spec_site_string(e)@ == site@),
{
    if str_eq(site, "ddog-gov.com") {
        let mut u = String::new();
        u.append("https://www.datadoghq-browser-agent.com/datadog-rum-v");
        push_u32_dec(&mut u, major_version);
        u.append(".js");
        proof {
            assert(u@ =~= cdn_url_chars(major_version as nat, site@));
        }
        return Ok(u);
    }
    let region: &str = if str_eq(site, "datadoghq.com") {
        "us1"
    } else if str_eq(site, "us3.datadoghq.com") {
        "us3"
    } else if str_eq(site, "us5.datadoghq.com") {
        "us5"
    } else if str_eq(site, "datadoghq.eu") {
        "eu1"
    } else if str_eq(site, "ap1.datadoghq.com") {
        "ap1"
    } else {
        return Err(Error::UnsupportedSite(site.to_owned()));
    };
    let mut u = String::new();
    u.append("https://www.datadoghq-browser-agent.com/");
    u.append(region);
    u.append("/v");
    push_u32_dec(&mut u, major_version);
    u.append("/datadog-rum.js");
    proof {
        assert(u@ =~= cdn_url_chars(major_version as nat, site@));
    }
    Ok(u)
}

/// The site an `UnsupportedSite` error names.
pub open spec fn spec_site_string(e: Error) -> String {
    match e {
        Error::UnsupportedSite(s) => s,
    }
}

/// Append one optional string field.
fn push_str_field(out: &mut String, label: &str, v: &Option<String>)
    ensures
        final(out)@ == old(out)@ + str_field(label@, *v),
{
    match v {
        Some(s) => {
            out.append(label);
            push_quoted(out, s.as_str());
            proof {
                assert(out@ =~= old(out)@ + str_field(label@, *v));
            }
        },
        None => {},
    }
}

/// Append one optional boolean field.
fn push_bool_field(out: &mut String, label: &str, v: &Option<bool>)
    ensures
        final(out)@ == old(out)@ + bool_field(label@, *v),
{
    match v {
        Some(b) => {
            out.append(label);
            push_bool(out, *b);
            proof {
                assert(out@ =~= old(out)@ + bool_field(label@, *v));
            }
        },
        None => {},
    }
}

/// Append the optional privacy-level field.
fn push_privacy_field(out: &mut String, label: &str, v: &Option<PrivacyLevel>)
    ensures
        final(out)@ == old(out)@ + privacy_field(label@, *v),
{
    match v {
        Some(p) => {
            out.append(label);
            push_privacy(out, *p);
            proof {
                assert(out@ =~= old(out)@ + privacy_field(label@, *v));
            }
        },
        None => {},
    }
}

/// Append one optional JSON-fragment field.
fn push_frag_field(out: &mut String, label: &str, v: &Option<JsonFragment>)
    ensures
        final(out)@ == old(out)@ + frag_field(label@, *v),
{
    match v {
        Some(f) => {
            out.append(label);
            push_ascii_escaped(out, f.0.as_str());
            proof {
                assert(out@ =~= old(out)@ + frag_field(label@, *v));
            }
        },
        None => {},
    }
}

/// Append the identifier fields of the configuration's JSON object.
fn push_rum_ids(out: &mut String, r: &RumConfiguration)
    ensures
        final(out)@ == old(out)@ + rum_ids_chars(*r),
{
    out.append("{\"applicationId\":");
    push_quoted(out, r.application_id.as_str());
    out.append(",\"clientToken\":");
    push_quoted(out, r.client_token.as_str());
    push_str_field(out, ",\"site\":", &r.site);
    push_str_field(out, ",\"service\":", &r.service);
    push_str_field(out, ",\"env\":", &r.env);
    push_str_field(out, ",\"version\":", &r.version);
    proof {
        assert(out@ =~= old(out)@ + rum_ids_chars(*r));
    }
}

/// Append the optional flag, privacy, and sample-rate fields of the
/// configuration's JSON object.
fn push_rum_opts(out: &mut String, r: &RumConfiguration)
    ensures
        final(out)@ == old(out)@ + rum_opts_chars(*r),
{
    push_bool_field(out, ",\"trackUserInteractions\":", &r.track_user_interactions);
    push_bool_field(out, ",\"trackResources\":", &r.track_resources);
    push_bool_field(out, ",\"trackLongTask\":", &r.track_long_task);
    push_privacy_field(out, ",\"defaultPrivacyLevel\":", &r.default_privacy_level);
    push_frag_field(out, ",\"sessionSampleRate\":", &r.session_sample_rate);
    push_frag_field(out, ",\"sessionReplaySampleRate\":", &r.session_replay_sample_rate);
    proof {
        assert(out@ =~= old(out)@ + rum_opts_chars(*r));
    }
}

/// Append the configuration's JSON object.
fn push_rum_json(out: &mut String, r: &RumConfiguration)
    ensures
        final(out)@ == old(out)@ + rum_json_chars(*r),
{
    push_rum_ids(out, r);
    push_rum_opts(out, r);
    let ghost mid = out@;
    let m = r.other.len();
    proof {
        assert(r.other@.subrange(0, 0) =~= Seq::<(String, JsonFragment)>::empty());
        assert(out@ =~= mid + other_chars(r.other@.subrange(0, 0)));
    }
    let mut i: usize = 0;
    while i < m
        invariant
            i <= m,
            m == r.other@.len(),
            out@ == mid + other_chars(r.other@.subrange(0, i as int)),
        decreases m - i,
    {
        proof {
            lemma_other_chars_snoc(r.other@, i as int);
        }
        out.push(',');
        push_quoted(out, r.other[i].0.as_str());
        out.push(':');
        push_ascii_escaped(out, r.other[i].1.0.as_str());
        proof {
            assert(out@ =~= mid + other_chars(r.other@.subrange(0, i as int)) + entry_chars(
                r.other@[i as int],
            ));
        }
        i = i + 1;
    }
    proof {
        assert(r.other@.subrange(0, m as int) =~= r.other@);
    }
    out.push('}');
    proof {
        assert(out@ =~= old(out)@ + rum_json_chars(*r));
    }
}

/// Generate the snippet for `configuration`: the fixed loader script around
/// the CDN URL and the serialized configuration, as bytes.  Succeeds exactly
/// when the effective site (the configured one, or the default) is supported;
/// otherwise reports that site as unsupported, producing nothing.
pub fn generate_snippet(configuration: &Configuration) -> (r: Result<Vec<u8>, Error>)
    ensures
        site_supported(effective_site(*configuration)) ==> (r matches Ok(v) && v@ == snippet_bytes(
            *configuration,
        )),
        !site_supported(effective_site(*configuration)) ==> (r matches Err(e) && e
            == Error::UnsupportedSite(spec_site_string(e)) && spec_site_string(e)@
            == effective_site(*configuration)),
{
    let site: &str = match &configuration.rum.site {
        Some(s) => s.as_str(),
        None => "datadoghq.com",
    };
    let url = match format_cdn_url(configuration.major_version, site) {
        Ok(u) => u,
        Err(e) => {
            return Err(e);
        },
    };
    let mut text = String::new();
    text.append(SNIPPET_PREFIX);
    text.append(url.as_str());
    text.append(SNIPPET_MID);
    push_rum_json(&mut text, &configuration.rum);
    text.append(SNIPPET_SUFFIX);
    proof {
        assert(text@ =~= snippet_chars(*configuration));
    }
    Ok(text.as_str().as_bytes_vec())
}

} // verus!
