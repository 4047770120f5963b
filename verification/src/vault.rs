//! The local vault: publication endpoints, contact names, fingerprint
//! channels and the hex text of owner signing keys.

use vstd::prelude::*;
use crate::text;
use crate::messages::{ApiError, CliMessage, cli_error, is_plain_error};

verus! {

/// The advice printed when a published public key is received.
pub const PUBLISH_RECEIVE_VERIFICATION_ADVICE: &'static str = "public key received; verify it by asking the publisher for the fingerprint code. You must initiate the communication over a channel you already trust. If the publisher sends you the fingerprint before you ask, do not accept it.";

/// Why the long fingerprint code, not a short PIN, authenticates a key.
pub const PUBLISH_FINGERPRINT_SECURITY_NOTE: &'static str = "use the 96-bit Crockford fingerprint code; short PINs are only accidental-error checks and are too small to authenticate a public key against substitution";

/// The question asked when no fingerprint channel was given.
pub const FINGERPRINT_CHANNEL_PROMPT: &'static str = "How did you receive the fingerprint?\n  1) email\n  2) phone call from the key owner\n  3) phone call to the key owner\n  4) text/SMS message from the key owner\n  5) text/SMS message to the key owner\n  6) in person";

/// The topology endpoints used when no publish server is configured, in the
/// order in which they are tried.
pub const DEFAULT_PUBLISH_TOPOLOGY_URLS: [&'static str; 2] = [
    "https://keyshare0.revault.onepub.dev/v1/topology",
    "https://keyshare1.revault.onepub.dev/v1/topology",
];

/// A server address turned into a URL: a value that is already a URL is kept,
/// trimmed; a bare host gets the `http://` scheme and the given endpoint path.
pub open spec fn endpoint_url(value: Seq<char>, endpoint: Seq<char>) -> Seq<char> {
    let v = text::trim(value);
    if text::has_prefix(v, "http://"@) || text::has_prefix(v, "https://"@) {
        v
    } else {
        "http://"@ + v + endpoint
    }
}

fn endpoint_url_text(value: &str, endpoint: &str) -> (r: String)
    ensures r@ == endpoint_url(value@, endpoint@),
{
    let v = text::str_trim(value);
    if text::starts_with(v, "http://") || text::starts_with(v, "https://") {
        text::owned(v)
    } else {
        text::concat3("http://", v, endpoint)
    }
}

/// The publish endpoint of a configured server.
pub fn normalize_publish_url(value: &str) -> (r: String)
    ensures r@ == endpoint_url(value@, "/v1/publish"@),
{
    endpoint_url_text(value, "/v1/publish")
}

/// The topology endpoint of a configured server.
pub fn normalize_topology_url(value: &str) -> (r: String)
    ensures r@ == endpoint_url(value@, "/v1/topology"@),
{
    endpoint_url_text(value, "/v1/topology")
}

/// A character kept in a contact name.
pub open spec fn kept_in_name(c: char) -> bool {
    text::is_alnum(c) || c == '_'
}

/// The contact name built from the characters of an address, and whether the
/// last character seen was a separator: kept characters are lower-cased, and
/// each run of other characters becomes one underscore (none at the start).
pub open spec fn contact_scan(s: Seq<char>) -> (Seq<char>, bool)
    decreases s.len(),
{
    if s.len() == 0 {
        (Seq::empty(), false)
    } else {
        let (name, last_separator) = contact_scan(s.drop_last());
        let c = s.last();
        if kept_in_name(c) {
            (name.push(text::lower_char(c)), false)
        } else if !last_separator && name.len() > 0 {
            (name.push('_'), true)
        } else {
            (name, true)
        }
    }
}

/// The default contact name for an e-mail address.
pub open spec fn contact_name_of(email: Seq<char>) -> Seq<char> {
    text::trim_end_char(contact_scan(email).0, '_')
}

/// The default contact name for an e-mail address (`alice.publisher@example.test`
/// gives `alice_publisher_example_test`).
pub fn contact_name_from_email(email: &str) -> (r: String)
    ensures r@ == contact_name_of(email@),
{
    let n = email.unicode_len();
    let mut name = String::new();
    let mut last_separator = false;
    let mut i: usize = 0;
    while i < n
        invariant
            i <= n,
            n == email@.len(),
            (name@, last_separator) == contact_scan(email@.subrange(0, i as int)),
        decreases n - i,
    {
        let c = email.get_char(i);
        assert(email@.subrange(0, i + 1).drop_last() =~= email@.subrange(0, i as int));
        if text::char_is_alnum(c) || c == '_' {
            text::push_char(&mut name, text::char_to_lower(c));
            last_separator = false;
        } else {
            if !last_separator && name.as_str().unicode_len() > 0 {
                text::push_char(&mut name, '_');
            }
            last_separator = true;
        }
        i = i + 1;
    }
    assert(email@.subrange(0, n as int) =~= email@);
    text::owned(text::trim_end_matches_char(name.as_str(), '_'))
}

/// A character of a fingerprint channel as compared: lower-cased, with
/// spaces, underscores and slashes read as hyphens.
pub open spec fn channel_char(c: char) -> char {
    let l = text::lower_char(c);
    if l == ' ' || l == '_' || l == '/' { '-' } else { l }
}

/// The key under which a fingerprint channel answer is looked up.
pub open spec fn channel_key(selected: Seq<char>) -> Seq<char> {
    text::trim(selected).map_values(|c: char| channel_char(c))
}

/// The refusal of e-mail as a fingerprint channel.
pub open spec fn email_refusal() -> Seq<char> {
    "fingerprint channel rejected: email cannot be used because publisher email is already verified by the key server"@
}

/// The refusal of a channel that the key owner started.
pub open spec fn owner_initiated_refusal() -> Seq<char> {
    "fingerprint channel rejected: the receiver must initiate the fingerprint check"@
}

/// The outcome of a fingerprint channel answer: the accepted channel's name,
/// or the message of the refusal.
pub open spec fn channel_outcome(selected: Seq<char>) -> Result<Seq<char>, Seq<char>> {
    let k = channel_key(selected);
    if k == "1"@ || k == "email"@ || k == "e-mail"@ {
        Err(email_refusal())
    } else if k == "2"@ || k == "phone-call-from-owner"@ || k == "call-from-owner"@
        || k == "owner-called"@ || k == "phone-call-from-key-owner"@ {
        Err(owner_initiated_refusal())
    } else if k == "3"@ || k == "phone-call-to-owner"@ || k == "call-to-owner"@
        || k == "called-owner"@ || k == "phone-call-to-key-owner"@ {
        Ok("phone-call-to-owner"@)
    } else if k == "4"@ || k == "text-from-owner"@ || k == "sms-from-owner"@
        || k == "text-message-from-owner"@ || k == "sms-message-from-owner"@
        || k == "text-from-key-owner"@ || k == "sms-from-key-owner"@ {
        Err(owner_initiated_refusal())
    } else if k == "5"@ || k == "text-to-owner"@ || k == "sms-to-owner"@
        || k == "text-message-to-owner"@ || k == "sms-message-to-owner"@
        || k == "text-to-key-owner"@ || k == "sms-to-key-owner"@ {
        Ok("sms-to-owner"@)
    } else if k == "6"@ || k == "in-person"@ || k == "inperson"@ || k == "face-to-face"@ {
        Ok("in-person"@)
    } else {
        Err("unknown fingerprint channel: "@ + selected
            + "; use phone-call-to-owner, sms-to-owner, or in-person"@)
    }
}

fn channel_key_text(selected: &str) -> (r: String)
    ensures r@ == channel_key(selected@),
{
    let t = text::str_trim(selected);
    let n = t.unicode_len();
    let mut out = String::new();
    let mut i: usize = 0;
    while i < n
        invariant
            i <= n,
            n == t@.len(),
            out@ == t@.subrange(0, i as int).map_values(|c: char| channel_char(c)),
        decreases n - i,
    {
        let l = text::char_to_lower(t.get_char(i));
        let c = if l == ' ' || l == '_' || l == '/' { '-' } else { l };
        text::push_char(&mut out, c);
        i = i + 1;
        assert(out@ =~= t@.subrange(0, i as int).map_values(|c: char| channel_char(c)));
    }
    assert(t@.subrange(0, n as int) =~= t@);
    out
}

fn key_is(k: &str, a: &str, b: &str, c: &str) -> (r: bool)
    ensures r == (k@ == a@ || k@ == b@ || k@ == c@),
{
    text::str_eq(k, a) || text::str_eq(k, b) || text::str_eq(k, c)
}

/// Checks the channel over which a receiver confirmed a fingerprint: only a
/// channel that the receiver started (a call or message to the key owner, or
/// a meeting in person) is accepted.
pub fn verify_fingerprint_channel(selected: &str) -> (r: Result<&'static str, ApiError>)
    ensures
        match channel_outcome(selected@) {
            Ok(name) => r matches Ok(v) && v@ == name,
            Err(m) => r matches Err(ApiError::InvalidInput(e)) && e@ == m,
        },
{
    let key = channel_key_text(selected);
    let k = key.as_str();
    if key_is(k, "1", "email", "e-mail") {
        Err(ApiError::InvalidInput(text::owned("fingerprint channel rejected: email cannot be used because publisher email is already verified by the key server")))
    } else if key_is(k, "2", "phone-call-from-owner", "call-from-owner") || key_is(k, "owner-called", "phone-call-from-key-owner", "owner-called") {
        Err(ApiError::InvalidInput(text::owned("fingerprint channel rejected: the receiver must initiate the fingerprint check")))
    } else if key_is(k, "3", "phone-call-to-owner", "call-to-owner") || key_is(k, "called-owner", "phone-call-to-key-owner", "called-owner") {
        Ok("phone-call-to-owner")
    } else if key_is(k, "4", "text-from-owner", "sms-from-owner") || key_is(k, "text-message-from-owner", "sms-message-from-owner", "text-from-key-owner") || text::str_eq(k, "sms-from-key-owner") {
        Err(ApiError::InvalidInput(text::owned("fingerprint channel rejected: the receiver must initiate the fingerprint check")))
    } else if key_is(k, "5", "text-to-owner", "sms-to-owner") || key_is(k, "text-message-to-owner", "sms-message-to-owner", "text-to-key-owner") || text::str_eq(k, "sms-to-key-owner") {
        Ok("sms-to-owner")
    } else if key_is(k, "6", "in-person", "inperson") || text::str_eq(k, "face-to-face") {
        Ok("in-person")
    } else {
        Err(ApiError::InvalidInput(text::concat3("unknown fingerprint channel: ", selected, "; use phone-call-to-owner, sms-to-owner, or in-person")))
    }
}

/// The value of a hexadecimal digit byte, either case.
pub open spec fn hex_value(b: u8) -> Option<u8> {
    if 48 <= b <= 57 {
        Some((b - 48) as u8)
    } else if 97 <= b <= 102 {
        Some((b - 87) as u8)
    } else if 65 <= b <= 70 {
        Some((b - 55) as u8)
    } else {
        None
    }
}

/// The refusal of a byte that is not a hexadecimal digit.
pub open spec fn non_hex_refusal() -> Seq<char> {
    "hex value contains non-hex digits"@
}

/// The value of one hexadecimal digit.
pub fn hex_digit(byte: u8) -> (r: Result<u8, ApiError>)
    ensures
        match hex_value(byte) {
            Some(v) => r matches Ok(x) && x == v,
            None => r matches Err(ApiError::InvalidInput(e)) && e@ == non_hex_refusal(),
        },
{
    if 48 <= byte && byte <= 57 {
        Ok(byte - 48)
    } else if 97 <= byte && byte <= 102 {
        Ok(byte - 87)
    } else if 65 <= byte && byte <= 70 {
        Ok(byte - 55)
    } else {
        Err(ApiError::InvalidInput(text::owned("hex value contains non-hex digits")))
    }
}

/// Every byte is a hexadecimal digit.
pub open spec fn all_hex(b: Seq<u8>) -> bool {
    forall|i: int| 0 <= i < b.len() ==> #[trigger] hex_value(b[i]) is Some
}

/// The bytes written by pairs of hexadecimal digits, high digit first.
pub open spec fn hex_pairs(b: Seq<u8>) -> Seq<u8> {
    Seq::new(b.len() / 2, |i: int| (hex_value(b[2 * i])->0 * 16 + hex_value(b[2 * i + 1])->0) as u8)
}

/// The outcome of decoding hex text: the bytes, or the message of the refusal.
/// The text is trimmed and read byte by byte.
pub open spec fn hex_decoding(value: Seq<char>) -> Result<Seq<u8>, Seq<char>> {
    let b = vstd::utf8::encode_utf8(text::trim(value));
    if b.len() % 2 != 0 {
        Err("hex value has odd length"@)
    } else if !all_hex(b) {
        Err(non_hex_refusal())
    } else {
        Ok(hex_pairs(b))
    }
}

/// Decodes hex text (either case, surrounding whitespace ignored) into bytes.
pub fn decode_hex(value: &str) -> (r: Result<Vec<u8>, ApiError>)
    ensures
        match hex_decoding(value@) {
            Ok(bytes) => r matches Ok(v) && v@ == bytes,
            Err(m) => r matches Err(ApiError::InvalidInput(e)) && e@ == m,
        },
{
    let t = text::str_trim(value);
    let bytes = t.as_bytes();
    let n = bytes.len();
    if n % 2 != 0 {
        return Err(ApiError::InvalidInput(text::owned("hex value has odd length")));
    }
    let ghost b = bytes@;
    let mut out: Vec<u8> = Vec::new();
    let mut index: usize = 0;
    while index < n
        invariant
            index <= n,
            n == b.len(),
            n % 2 == 0,
            index % 2 == 0,
            b == bytes@,
            b == vstd::utf8::encode_utf8(text::trim(value@)),
            forall|i: int| 0 <= i < index ==> #[trigger] hex_value(b[i]) is Some,
            out@.len() == index / 2,
            forall|i: int| 0 <= i < index / 2 ==> #[trigger] out@[i] == (hex_value(b[2 * i])->0 * 16 + hex_value(b[2 * i + 1])->0) as u8,
        decreases n - index,
    {
        let high = match hex_digit(bytes[index]) {
            Ok(v) => v,
            Err(e) => {
                assert(!all_hex(b)) by { assert(hex_value(b[index as int]) is None); }
                return Err(e);
            },
        };
        let low = match hex_digit(bytes[index + 1]) {
            Ok(v) => v,
            Err(e) => {
                assert(!all_hex(b)) by { assert(hex_value(b[index + 1]) is None); }
                return Err(e);
            },
        };
        out.push(high * 16 + low);
        assert(2 * ((index + 2) / 2 - 1) == index);
        index = index + 2;
    }
    assert(out@ =~= hex_pairs(b));
    Ok(out)
}

/// The lower-case hexadecimal digit of a value below 16.
pub open spec fn nibble_char(n: nat) -> char {
    if n < 10 { ((48 + n) as u32) as char } else { ((87 + n) as u32) as char }
}

/// Bytes written as lower-case hexadecimal, two digits per byte.
pub open spec fn hex_text(b: Seq<u8>) -> Seq<char> {
    Seq::new(2 * b.len(), |i: int| if i % 2 == 0 { nibble_char((b[i / 2] / 16) as nat) } else { nibble_char((b[i / 2] % 16) as nat) })
}

/// Bytes written as lower-case hexadecimal, 32 bytes to a line, each line
/// ended by a newline.
pub open spec fn wrapped_hex(b: Seq<u8>) -> Seq<char>
    decreases b.len(),
{
    if b.len() == 0 {
        Seq::empty()
    } else if b.len() <= 32 {
        hex_text(b).push('\n')
    } else {
        hex_text(b.subrange(0, 32)).push('\n') + wrapped_hex(b.subrange(32, b.len() as int))
    }
}

fn nibble(n: u8) -> (c: char)
    requires n < 16,
    ensures c == nibble_char(n as nat),
{
    if n < 10 { (48 + n) as char } else { (87 + n) as char }
}

/// Key material written as wrapped lower-case hex, as in a profile backup.
pub fn write_wrapped_hex(bytes: &[u8]) -> (r: String)
    ensures r@ == wrapped_hex(bytes@),
{
    let n = bytes.len();
    let mut out = String::new();
    let mut start: usize = 0;
    assert(bytes@.subrange(0, n as int) =~= bytes@);
    assert(out@ + wrapped_hex(bytes@) =~= wrapped_hex(bytes@));
    while start < n
        invariant
            start <= n,
            n == bytes@.len(),
            out@ + wrapped_hex(bytes@.subrange(start as int, n as int)) == wrapped_hex(bytes@),
        decreases n - start,
    {
        let end: usize = if n - start <= 32 { n } else { start + 32 };
        let ghost rest = bytes@.subrange(start as int, n as int);
        let ghost chunk = bytes@.subrange(start as int, end as int);
        let ghost before = out@;
        let mut j: usize = start;
        while j < end
            invariant
                start <= j <= end,
                end <= n,
                n == bytes@.len(),
                chunk == bytes@.subrange(start as int, end as int),
                out@ == before + hex_text(bytes@.subrange(start as int, j as int)),
            decreases end - j,
        {
            let b = bytes[j];
            text::push_char(&mut out, nibble(b / 16));
            text::push_char(&mut out, nibble(b % 16));
            j = j + 1;
            assert(out@ =~= before + hex_text(bytes@.subrange(start as int, j as int)));
        }
        text::push_char(&mut out, '\n');
        proof {
            if rest.len() <= 32 {
                assert(chunk =~= rest);
                assert(bytes@.subrange(end as int, n as int) =~= Seq::<u8>::empty());
            } else {
                assert(rest.subrange(0, 32) =~= chunk);
                assert(rest.subrange(32, rest.len() as int) =~= bytes@.subrange(end as int, n as int));
            }
            assert(out@ + wrapped_hex(bytes@.subrange(end as int, n as int)) =~= wrapped_hex(bytes@));
        }
        start = end;
    }
    assert(out@ =~= out@ + wrapped_hex(bytes@.subrange(n as int, n as int)));
    out
}

/// Hex text decodes back to the bytes it was written from.
pub proof fn lemma_hex_round_trip(b: Seq<u8>)
    ensures hex_decoding(hex_text(b)) == Ok::<Seq<u8>, Seq<char>>(b),
{
    let h = hex_text(b);
    assert(vstd::utf8::is_ascii_chars(h));
    if h.len() > 0 {
        text::lemma_lead_len(h, text::ws_pred(), 0);
        text::lemma_trail_len(h, text::ws_pred(), 0);
    } else {
        text::lemma_lead_len(h, text::ws_pred(), 0);
        text::lemma_trail_len(h, text::ws_pred(), 0);
    }
    assert(text::trim(h) =~= h);
    vstd::utf8::is_ascii_chars_encode_utf8(h);
    let e = vstd::utf8::encode_utf8(h);
    assert forall|i: int| 0 <= i < e.len() implies #[trigger] hex_value(e[i]) is Some by {
        assert(h[i] as u8 == e[i]);
    }
    assert forall|i: int| 0 <= i < b.len() implies #[trigger] hex_pairs(e)[i] == b[i] by {
        assert(h[2 * i] as u8 == e[2 * i]);
        assert(h[2 * i + 1] as u8 == e[2 * i + 1]);
    }
    assert(hex_pairs(e) =~= b);
}

/// The widest of a header and some values, in bytes.
pub open spec fn widest(header: Seq<char>, values: Seq<&str>) -> nat
    decreases values.len(),
{
    if values.len() == 0 {
        crate::output::byte_len(header)
    } else {
        let w = widest(header, values.drop_last());
        let v = crate::output::byte_len(values.last()@);
        if v > w { v } else { w }
    }
}

/// The width of a table column: the widest of its header and its values, in bytes.
pub fn column_width(header: &str, values: &[&str]) -> (r: usize)
    ensures r as nat == widest(header@, values@),
{
    let mut width = header.len();
    let n = values.len();
    let mut i: usize = 0;
    while i < n
        invariant
            i <= n,
            n == values@.len(),
            width as nat == widest(header@, values@.subrange(0, i as int)),
        decreases n - i,
    {
        assert(values@.subrange(0, i + 1).drop_last() =~= values@.subrange(0, i as int));
        let l = values[i].len();
        if l > width {
            width = l;
        }
        i = i + 1;
    }
    assert(values@.subrange(0, n as int) =~= values@);
    width
}

/// The publish settings of the vault configuration.
#[derive(Debug)]
pub struct PublishConfig {
    pub server: Option<String>,
    pub topology_url: Option<String>,
}

/// A configuration line without its comment.
pub open spec fn uncommented(raw: Seq<char>) -> Seq<char> {
    match text::split_once_char(raw, '#') {
        Some((value, _)) => value,
        None => raw,
    }
}

/// What reading one more configuration line does to the state: whether the
/// `publish:` section is open, and the server and topology URL read so far.
pub open spec fn publish_step(st: (bool, Option<Seq<char>>, Option<Seq<char>>), raw: Seq<char>)
    -> (bool, Option<Seq<char>>, Option<Seq<char>>)
{
    let line = uncommented(raw);
    if text::trim(line).len() == 0 {
        st
    } else if !(line[0] == ' ' || line[0] == '\t') {
        (text::trim(line) == "publish:"@, st.1, st.2)
    } else if !st.0 {
        st
    } else {
        match text::split_once_char(text::trim(line), ':') {
            None => st,
            Some((key, value)) => {
                let v = text::trim_matches_char(text::trim(value), '"');
                let k = text::trim(key);
                if k == "server"@ {
                    (st.0, Some(v), st.2)
                } else if k == "topology_url"@ {
                    (st.0, st.1, Some(v))
                } else {
                    st
                }
            },
        }
    }
}

/// The state after some configuration lines.
pub open spec fn publish_scan(ls: Seq<Seq<char>>) -> (bool, Option<Seq<char>>, Option<Seq<char>>)
    decreases ls.len(),
{
    if ls.len() == 0 {
        (false, None, None)
    } else {
        publish_step(publish_scan(ls.drop_last()), ls.last())
    }
}

/// The text of an optional string.
pub open spec fn opt_view(o: Option<String>) -> Option<Seq<char>> {
    match o {
        Some(s) => Some(s@),
        None => None,
    }
}

/// The publish settings in a vault configuration (none when it has no file):
/// `server` and `topology_url` under an unindented `publish:` line, comments
/// after `#` ignored and surrounding quotes removed; a later value replaces
/// an earlier one.
pub fn read_publish_config(contents: Option<&str>) -> (r: PublishConfig)
    ensures
        match contents {
            None => r.server is None && r.topology_url is None,
            Some(t) => {
                let st = publish_scan(text::lines(t@));
                opt_view(r.server) == st.1 && opt_view(r.topology_url) == st.2
            },
        },
{
    let t = match contents {
        None => return PublishConfig { server: None, topology_url: None },
        Some(t) => t,
    };
    let ls = text::split_lines(t);
    let ghost lv = ls@.map_values(|l: &str| l@);
    let mut in_publish = false;
    let mut server: Option<String> = None;
    let mut topology: Option<String> = None;
    let mut i: usize = 0;
    while i < ls.len()
        invariant
            i <= ls@.len(),
            lv == ls@.map_values(|l: &str| l@),
            (in_publish, opt_view(server), opt_view(topology)) == publish_scan(lv.subrange(0, i as int)),
        decreases ls@.len() - i,
    {
        let raw = ls[i];
        assert(lv.subrange(0, i + 1).drop_last() =~= lv.subrange(0, i as int));
        assert(lv[i as int] == raw@);
        let line = match text::split_once_char_str(raw, '#') {
            Some((value, _)) => value,
            None => raw,
        };
        let trimmed = text::str_trim(line);
        if trimmed.unicode_len() == 0 {
        } else if !(line.get_char(0) == ' ' || line.get_char(0) == '\t') {
            in_publish = text::str_eq(trimmed, "publish:");
        } else if in_publish {
            match text::split_once_char_str(trimmed, ':') {
                None => {},
                Some((key, value)) => {
                    let v = text::trim_matches_char_str(text::str_trim(value), '"');
                    let k = text::str_trim(key);
                    if text::str_eq(k, "server") {
                        server = Some(text::owned(v));
                    } else if text::str_eq(k, "topology_url") {
                        topology = Some(text::owned(v));
                    }
                },
            }
        }
        i = i + 1;
    }
    assert(lv.subrange(0, ls@.len() as int) =~= lv);
    PublishConfig { server, topology_url: topology }
}

/// The first line, from `from` on, that contains a label.
pub open spec fn first_line_with(ls: Seq<Seq<char>>, label: Seq<char>, from: int) -> Option<int>
    decreases ls.len() - from,
{
    if from < 0 || from >= ls.len() {
        None
    } else if text::contains(ls[from], label) {
        Some(from)
    } else {
        first_line_with(ls, label, from + 1)
    }
}

/// The lines from the first one with the begin label through the next one
/// with the end label, joined by newlines and ended by one.
pub open spec fn labeled_block(t: Seq<char>, begin: Seq<char>, end: Seq<char>) -> Option<Seq<char>> {
    let ls = text::lines(t);
    match first_line_with(ls, begin, 0) {
        None => None,
        Some(s) => match first_line_with(ls, end, s) {
            None => None,
            Some(e) => Some(crate::output::joined(ls.subrange(s, e + 1), "\n"@) + "\n"@),
        },
    }
}

fn first_line_index(ls: &Vec<&str>, label: &str, from: usize) -> (r: Option<usize>)
    requires from <= ls@.len(),
    ensures
        match first_line_with(ls@.map_values(|l: &str| l@), label@, from as int) {
            None => r is None,
            Some(k) => r == Some(k as usize),
        },
{
    let ghost lv = ls@.map_values(|l: &str| l@);
    let mut i = from;
    while i < ls.len()
        invariant
            from <= i <= ls@.len(),
            lv == ls@.map_values(|l: &str| l@),
            first_line_with(lv, label@, from as int) == first_line_with(lv, label@, i as int),
        decreases ls@.len() - i,
    {
        assert(lv[i as int] == ls@[i as int]@);
        if text::contains_str(ls[i], label) {
            return Some(i);
        }
        i = i + 1;
    }
    None
}

/// The block of lines between two labels, or the given refusal when either
/// label is missing.
pub fn extract_labeled_block(t: &str, begin_label: &str, end_label: &str, missing_message: &str) -> (r: Result<String, ApiError>)
    ensures
        match labeled_block(t@, begin_label@, end_label@) {
            Some(b) => r matches Ok(x) && x@ == b,
            None => r matches Err(ApiError::InvalidInput(m)) && m@ == missing_message@,
        },
{
    let ls = text::split_lines(t);
    let ghost lv = ls@.map_values(|l: &str| l@);
    let start = match first_line_index(&ls, begin_label, 0) {
        None => return Err(ApiError::InvalidInput(text::owned(missing_message))),
        Some(s) => s,
    };
    proof { lemma_first_line_bounds(lv, begin_label@, 0); }
    let end = match first_line_index(&ls, end_label, start) {
        None => return Err(ApiError::InvalidInput(text::owned(missing_message))),
        Some(e) => e,
    };
    proof { lemma_first_line_bounds(lv, end_label@, start as int); }
    let mut block = String::new();
    let total = ls.len();
    let mut i = start;
    while i <= end
        invariant
            start <= i <= end + 1,
            end < total,
            total == ls@.len(),
            lv == ls@.map_values(|l: &str| l@),
            i == start ==> block@.len() == 0,
            i > start ==> block@ == crate::output::joined(lv.subrange(start as int, i as int), "\n"@),
        decreases end + 1 - i,
    {
        if i > start {
            text::push_char(&mut block, '\n');
        }
        text::push_str(&mut block, ls[i]);
        proof {
            let part = lv.subrange(start as int, i + 1);
            assert(part.drop_last() =~= lv.subrange(start as int, i as int));
            assert(part.last() == ls@[i as int]@);
            reveal_strlit("\n");
            if i == start {
                assert(part.len() == 1);
                assert(block@ =~= crate::output::joined(part, "\n"@));
            } else {
                assert(block@ =~= crate::output::joined(part, "\n"@));
            }
        }
        i = i + 1;
    }
    text::push_char(&mut block, '\n');
    proof { reveal_strlit("\n"); }
    Ok(block)
}

proof fn lemma_first_line_bounds(ls: Seq<Seq<char>>, label: Seq<char>, from: int)
    ensures first_line_with(ls, label, from) matches Some(k) ==> from <= k < ls.len(),
    decreases ls.len() - from,
{
    if 0 <= from < ls.len() && !text::contains(ls[from], label) {
        lemma_first_line_bounds(ls, label, from + 1);
    }
}

/// The line that introduces the owner signing key in a profile backup.
pub const OWNER_SIGNING_MARKER: &'static str = "Owner signing private key record (hex):";

/// A hexadecimal digit character.
pub open spec fn is_hex_char(c: char) -> bool {
    ('0' <= c && c <= '9') || ('a' <= c && c <= 'f') || ('A' <= c && c <= 'F')
}

/// A line made of hexadecimal digits only.
pub open spec fn is_hex_line(l: Seq<char>) -> bool {
    forall|i: int| 0 <= i < l.len() ==> #[trigger] is_hex_char(l[i])
}

/// The lines with leading blank ones dropped.
pub open spec fn skip_blank(ls: Seq<Seq<char>>) -> Seq<Seq<char>>
    decreases ls.len(),
{
    if ls.len() > 0 && ls[0].len() == 0 { skip_blank(ls.drop_first()) } else { ls }
}

/// The leading non-empty hex lines, concatenated.
pub open spec fn hex_run(ls: Seq<Seq<char>>) -> Seq<char>
    decreases ls.len(),
{
    if ls.len() > 0 && ls[0].len() > 0 && is_hex_line(ls[0]) { ls[0] + hex_run(ls.drop_first()) } else { Seq::empty() }
}

/// Each line trimmed.
pub open spec fn trimmed_lines(ls: Seq<Seq<char>>) -> Seq<Seq<char>> {
    ls.map_values(|l: Seq<char>| text::trim(l))
}

/// The hex of the owner signing key in a profile backup: the hex lines that
/// follow its marker, after any blank lines, joined.
pub open spec fn owner_signing_hex(t: Seq<char>) -> Option<Seq<char>> {
    match text::find(t, OWNER_SIGNING_MARKER@) {
        None => None,
        Some(k) => {
            let rest = t.subrange(k + OWNER_SIGNING_MARKER@.len(), t.len() as int);
            let h = hex_run(skip_blank(trimmed_lines(text::lines(rest))));
            if h.len() == 0 { None } else { Some(h) }
        },
    }
}

fn hex_line(l: &str) -> (r: bool)
    ensures r == is_hex_line(l@),
{
    let n = l.unicode_len();
    let mut i: usize = 0;
    while i < n
        invariant
            i <= n,
            n == l@.len(),
            forall|j: int| 0 <= j < i ==> is_hex_char(#[trigger] l@[j]),
        decreases n - i,
    {
        let c = l.get_char(i);
        if !(('0' <= c && c <= '9') || ('a' <= c && c <= 'f') || ('A' <= c && c <= 'F')) {
            assert(!is_hex_char(l@[i as int]));
            return false;
        }
        i = i + 1;
    }
    true
}

/// The hex of the owner signing key in a profile backup.
pub fn extract_owner_signing_hex(t: &str) -> (r: Result<String, ApiError>)
    ensures
        match owner_signing_hex(t@) {
            Some(h) => r matches Ok(x) && x@ == h,
            None => r matches Err(ApiError::InvalidInput(m)) && m@ == "profile backup is missing owner signing private key"@,
        },
{
    let n = t.unicode_len();
    let k = match text::find_str(t, OWNER_SIGNING_MARKER) {
        None => return Err(ApiError::InvalidInput(text::owned("profile backup is missing owner signing private key"))),
        Some(k) => k,
    };
    proof { text::lemma_find_from_props(t@, OWNER_SIGNING_MARKER@, 0); }
    let rest = t.substring_char(k + OWNER_SIGNING_MARKER.unicode_len(), n);
    let ls = text::split_lines(rest);
    let ghost tl = trimmed_lines(ls@.map_values(|l: &str| l@));
    let m = ls.len();
    let mut i: usize = 0;
    assert(tl.subrange(0, m as int) =~= tl);
    while i < m && text::str_trim(ls[i]).unicode_len() == 0
        invariant
            i <= m,
            m == ls@.len(),
            tl == trimmed_lines(ls@.map_values(|l: &str| l@)),
            skip_blank(tl) == skip_blank(tl.subrange(i as int, m as int)),
        decreases m - i,
    {
        let ghost tail = tl.subrange(i as int, m as int);
        assert(tail.drop_first() =~= tl.subrange(i + 1, m as int));
        i = i + 1;
    }
    assert(skip_blank(tl) == tl.subrange(i as int, m as int)) by {
        let tail = tl.subrange(i as int, m as int);
        if tail.len() > 0 {
            assert(tail[0] == tl[i as int]);
        }
    }
    let mut hex = String::new();
    let ghost start = i as int;
    while i < m && text::str_trim(ls[i]).unicode_len() > 0 && hex_line(text::str_trim(ls[i]))
        invariant
            start <= i <= m,
            m == ls@.len(),
            tl == trimmed_lines(ls@.map_values(|l: &str| l@)),
            hex@ + hex_run(tl.subrange(i as int, m as int)) == hex_run(tl.subrange(start, m as int)),
        decreases m - i,
    {
        let line = text::str_trim(ls[i]);
        let ghost tail = tl.subrange(i as int, m as int);
        assert(tail.drop_first() =~= tl.subrange(i + 1, m as int));
        assert(tail[0] == line@);
        let ghost before = hex@;
        text::push_str(&mut hex, line);
        assert(hex@ + hex_run(tl.subrange(i + 1, m as int)) =~= before + hex_run(tail));
        i = i + 1;
    }
    proof {
        let tail = tl.subrange(i as int, m as int);
        if tail.len() > 0 {
            assert(tail[0] == tl[i as int]);
        }
        assert(hex_run(tail) =~= Seq::<char>::empty());
        assert(hex@ =~= hex_run(tl.subrange(start, m as int)));
    }
    if hex.as_str().unicode_len() == 0 {
        return Err(ApiError::InvalidInput(text::owned("profile backup is missing owner signing private key")));
    }
    Ok(hex)
}

/// What a profile backup holds.
#[derive(Debug)]
pub struct ParsedProfileBackup {
    pub name: String,
    pub private_key_pem: String,
    pub signing_private_hex: String,
}

/// The profile named on the first line (trimmed) that starts with `Profile:`.
pub open spec fn profile_line(ls: Seq<Seq<char>>) -> Option<Seq<char>>
    decreases ls.len(),
{
    if ls.len() == 0 {
        None
    } else if text::has_prefix(text::trim(ls[0]), "Profile:"@) {
        Some(text::trim(text::trim(ls[0]).subrange("Profile:"@.len() as int, text::trim(ls[0]).len() as int)))
    } else {
        profile_line(ls.drop_first())
    }
}

/// Reads a profile backup: the profile's name, its private key block and the
/// hex of its owner signing key, each refused when missing.
pub fn parse_profile_backup(t: &str) -> (r: Result<ParsedProfileBackup, ApiError>)
    ensures
        ({
            let name = profile_line(text::lines(t@));
            let block = labeled_block(t@, "BEGIN LOCKBOX PRIVATE KEY"@, "END LOCKBOX PRIVATE KEY"@);
            let hex = owner_signing_hex(t@);
            if !(name matches Some(n) && n.len() > 0) {
                r matches Err(ApiError::InvalidInput(m)) && m@ == "profile backup is missing Profile"@
            } else if block is None {
                r matches Err(ApiError::InvalidInput(m)) && m@ == "profile backup is missing profile private key"@
            } else if hex is None {
                r matches Err(ApiError::InvalidInput(m)) && m@ == "profile backup is missing owner signing private key"@
            } else {
                r matches Ok(p) && Some(p.name@) == name && Some(p.private_key_pem@) == block
                    && Some(p.signing_private_hex@) == hex
            }
        }),
{
    let ls = text::split_lines(t);
    let ghost lv = ls@.map_values(|l: &str| l@);
    let m = ls.len();
    let mut i: usize = 0;
    let mut name: Option<String> = None;
    assert(lv.subrange(0, m as int) =~= lv);
    while i < m && name.is_none()
        invariant
            i <= m,
            m == ls@.len(),
            lv == ls@.map_values(|l: &str| l@),
            lv == text::lines(t@),
            name is None ==> profile_line(lv) == profile_line(lv.subrange(i as int, m as int)),
            name matches Some(n) ==> profile_line(lv) == Some(n@),
        decreases m - i,
    {
        let ghost tail = lv.subrange(i as int, m as int);
        assert(tail.drop_first() =~= lv.subrange(i + 1, m as int));
        assert(tail[0] == ls@[i as int]@);
        let line = text::str_trim(ls[i]);
        match text::strip_prefix(line, "Profile:") {
            Some(rest) => {
                name = Some(text::owned(text::str_trim(rest)));
            },
            None => {},
        }
        i = i + 1;
    }
    let name = match name {
        Some(n) => if n.as_str().unicode_len() > 0 {
            n
        } else {
            return Err(ApiError::InvalidInput(text::owned("profile backup is missing Profile")));
        },
        None => {
            assert(lv.subrange(m as int, m as int) =~= Seq::<Seq<char>>::empty());
            return Err(ApiError::InvalidInput(text::owned("profile backup is missing Profile")));
        },
    };
    let private_key_pem = match extract_labeled_block(t, "BEGIN LOCKBOX PRIVATE KEY", "END LOCKBOX PRIVATE KEY",
        "profile backup is missing profile private key") {
        Ok(b) => b,
        Err(e) => return Err(e),
    };
    let signing_private_hex = match extract_owner_signing_hex(t) {
        Ok(h) => h,
        Err(e) => return Err(e),
    };
    Ok(ParsedProfileBackup { name, private_key_pem, signing_private_hex })
}

/// The lines of wrapped hex: one per chunk of 32 bytes.
pub open spec fn hex_lines(b: Seq<u8>) -> Seq<Seq<char>>
    decreases b.len(),
{
    if b.len() == 0 {
        Seq::empty()
    } else if b.len() <= 32 {
        seq![hex_text(b)]
    } else {
        seq![hex_text(b.subrange(0, 32))] + hex_lines(b.subrange(32, b.len() as int))
    }
}

proof fn lemma_hex_text_chars(b: Seq<u8>)
    ensures
        is_hex_line(hex_text(b)),
        forall|i: int| 0 <= i < hex_text(b).len() ==> !text::is_ws(#[trigger] hex_text(b)[i]) && hex_text(b)[i] != '\n'
            && hex_text(b)[i] != '\r',
{
}

proof fn lemma_hex_text_concat(a: Seq<u8>, c: Seq<u8>)
    ensures hex_text(a + c) == hex_text(a) + hex_text(c),
{
    assert(hex_text(a + c) =~= hex_text(a) + hex_text(c));
}

/// The first line of a text is the part before its first newline.
proof fn lemma_lines_of_line(x: Seq<char>, rest: Seq<char>)
    requires
        forall|i: int| 0 <= i < x.len() ==> #[trigger] x[i] != '\n',
        x.len() == 0 || x.last() != '\r',
    ensures text::lines(x + seq!['\n'] + rest) == seq![x] + text::lines(rest),
{
    let s = x + seq!['\n'] + rest;
    assert forall|j: int| 0 <= j < x.len() implies !text::occurs_at(s, seq!['\n'], j) by {
        if text::occurs_at(s, seq!['\n'], j) {
            assert(s.subrange(j, j + 1)[0] == s[j]);
        }
    }
    assert(text::occurs_at(s, seq!['\n'], x.len() as int)) by {
        assert(s.subrange(x.len() as int, x.len() as int + 1) =~= seq!['\n']);
    }
    text::lemma_find_from_found(s, seq!['\n'], 0, x.len() as int);
    assert(s.subrange(0, x.len() as int) =~= x);
    assert(s.subrange(x.len() as int + 1, s.len() as int) =~= rest);
}

proof fn lemma_wrapped_lines(b: Seq<u8>)
    ensures text::lines(wrapped_hex(b)) == hex_lines(b),
    decreases b.len(),
{
    if b.len() == 0 {
    } else if b.len() <= 32 {
        let x = hex_text(b);
        lemma_hex_text_chars(b);
        lemma_lines_of_line(x, Seq::empty());
        assert(wrapped_hex(b) =~= x + seq!['\n'] + Seq::<char>::empty());
    } else {
        let c = b.subrange(0, 32);
        let rest = b.subrange(32, b.len() as int);
        let x = hex_text(c);
        lemma_hex_text_chars(c);
        lemma_wrapped_lines(rest);
        lemma_lines_of_line(x, wrapped_hex(rest));
        assert(wrapped_hex(b) =~= x + seq!['\n'] + wrapped_hex(rest));
    }
}

proof fn lemma_hex_lines_props(b: Seq<u8>)
    ensures
        forall|i: int| 0 <= i < hex_lines(b).len() ==> (#[trigger] hex_lines(b)[i]).len() > 0
            && is_hex_line(hex_lines(b)[i]) && text::trim(hex_lines(b)[i]) == hex_lines(b)[i],
        hex_run(hex_lines(b)) == hex_text(b),
    decreases b.len(),
{
    if b.len() == 0 {
        assert(hex_text(b) =~= Seq::<char>::empty());
    } else {
        let c = if b.len() <= 32 { b } else { b.subrange(0, 32) };
        let x = hex_text(c);
        lemma_hex_text_chars(c);
        text::lemma_lead_len(x, text::ws_pred(), 0);
        text::lemma_trail_len(x, text::ws_pred(), 0);
        assert(text::trim(x) =~= x);
        if b.len() <= 32 {
            assert(hex_lines(b) =~= seq![x]);
            assert(hex_lines(b).drop_first() =~= Seq::<Seq<char>>::empty());
            assert(hex_run(Seq::<Seq<char>>::empty()) =~= Seq::<char>::empty());
            assert(hex_run(hex_lines(b)) == x + hex_run(hex_lines(b).drop_first()));
            assert(hex_run(hex_lines(b)) =~= x);
        } else {
            let rest = b.subrange(32, b.len() as int);
            lemma_hex_lines_props(rest);
            assert(hex_lines(b).drop_first() =~= hex_lines(rest));
            lemma_hex_text_concat(c, rest);
            assert(c + rest =~= b);
            assert forall|i: int| 0 <= i < hex_lines(b).len() implies (#[trigger] hex_lines(b)[i]).len() > 0
                && is_hex_line(hex_lines(b)[i]) && text::trim(hex_lines(b)[i]) == hex_lines(b)[i] by {
                if i > 0 {
                    assert(hex_lines(b)[i] == hex_lines(rest)[i - 1]);
                }
            }
        }
    }
}

/// The owner signing key that a profile backup holds as wrapped hex after
/// its marker reads back as the key's bytes, whatever precedes the marker
/// (as long as it holds no marker of its own).
pub proof fn lemma_owner_signing_key_reads_back(prefix: Seq<char>, key: Seq<u8>)
    requires
        key.len() > 0,
        !text::contains(prefix, OWNER_SIGNING_MARKER@),
    ensures
        owner_signing_hex(prefix + OWNER_SIGNING_MARKER@ + seq!['\n'] + wrapped_hex(key)) == Some(hex_text(key)),
        hex_decoding(hex_text(key)) == Ok::<Seq<u8>, Seq<char>>(key),
{
    reveal_strlit("Owner signing private key record (hex):");
    let m = OWNER_SIGNING_MARKER@;
    let t = prefix + m + seq!['\n'] + wrapped_hex(key);
    // The marker is first found where it was written.
    text::lemma_find_from_props(prefix, m, 0);
    assert forall|j: int| 0 <= j < prefix.len() implies !text::occurs_at(t, m, j) by {
        if text::occurs_at(t, m, j) {
            if j + m.len() <= prefix.len() {
                assert(t.subrange(j, j + m.len()) =~= prefix.subrange(j, j + m.len()));
                assert(text::occurs_at(prefix, m, j));
            } else {
                let d = prefix.len() - j;
                assert(t.subrange(j, j + m.len())[d] == t[prefix.len() as int]);
                assert(t[prefix.len() as int] == m[0]);
                assert(m[d] == 'O');
            }
        }
    }
    assert(text::occurs_at(t, m, prefix.len() as int)) by {
        assert(t.subrange(prefix.len() as int, prefix.len() as int + m.len()) =~= m);
    }
    text::lemma_find_from_found(t, m, 0, prefix.len() as int);
    let rest = t.subrange(prefix.len() as int + m.len(), t.len() as int);
    assert(rest =~= Seq::<char>::empty() + seq!['\n'] + wrapped_hex(key));
    lemma_lines_of_line(Seq::empty(), wrapped_hex(key));
    lemma_wrapped_lines(key);
    lemma_hex_lines_props(key);
    let hl = hex_lines(key);
    let ls = text::lines(rest);
    assert(ls == seq![Seq::<char>::empty()] + hl);
    text::lemma_lead_len(Seq::<char>::empty(), text::ws_pred(), 0);
    text::lemma_trail_len(Seq::<char>::empty(), text::ws_pred(), 0);
    assert(text::trim(Seq::<char>::empty()) =~= Seq::<char>::empty());
    assert forall|i: int| 0 <= i < ls.len() implies #[trigger] trimmed_lines(ls)[i] == (seq![Seq::<char>::empty()] + hl)[i] by {
        if i > 0 {
            assert(ls[i] == hl[i - 1]);
            assert(text::trim(hl[i - 1]) == hl[i - 1]);
        }
    }
    assert(trimmed_lines(ls) =~= seq![Seq::<char>::empty()] + hl);
    assert(hl.len() > 0 && hl[0].len() > 0);
    assert((seq![Seq::<char>::empty()] + hl).drop_first() =~= hl);
    assert(skip_blank(hl) == hl);
    assert(skip_blank(trimmed_lines(ls)) == hl);
    assert(hex_text(key).len() > 0);
    lemma_hex_round_trip(key);
}

/// The publish server that later requests stick to, until a moment.
#[derive(Clone, Copy, Debug, PartialEq, Eq, Structural)]
pub struct StickyPublishServer {
    pub server_id: u8,
    pub expires_at_unix_ms: u64,
}

/// The file that remembers the sticky publish server.
pub open spec fn sticky_text(s: StickyPublishServer) -> Seq<char> {
    "server_id = "@ + text::dec(s.server_id as nat) + "\nexpires_at_unix_ms = "@
        + text::dec(s.expires_at_unix_ms as nat) + "\n"@
}

/// The text written to remember the sticky publish server.
pub fn persisted_publish_sticky_text(sticky: StickyPublishServer) -> (r: String)
    ensures r@ == sticky_text(sticky),
{
    let id = text::decimal(sticky.server_id as u64);
    let ms = text::decimal(sticky.expires_at_unix_ms);
    let mut out = text::concat3("server_id = ", id.as_str(), "\nexpires_at_unix_ms = ");
    text::push_str(&mut out, ms.as_str());
    text::push_str(&mut out, "\n");
    out
}

/// What reading one more line of the sticky file does: `server_id` and
/// `expires_at_unix_ms` are read as numbers, a value that is not one
/// forgetting what was read before.
pub open spec fn sticky_step(st: (Option<nat>, Option<nat>), raw: Seq<char>) -> (Option<nat>, Option<nat>) {
    let line = text::trim(uncommented(raw));
    if line.len() == 0 {
        st
    } else {
        match text::split_once_char(line, '=') {
            None => st,
            Some((key, value)) => {
                let k = text::trim(key);
                if k == "server_id"@ {
                    (crate::args::parsed_unsigned(text::trim(value), 255), st.1)
                } else if k == "expires_at_unix_ms"@ {
                    (st.0, crate::args::parsed_unsigned(text::trim(value), u64::MAX as nat))
                } else {
                    st
                }
            },
        }
    }
}

/// The values read from the lines of the sticky file.
pub open spec fn sticky_scan(ls: Seq<Seq<char>>) -> (Option<nat>, Option<nat>)
    decreases ls.len(),
{
    if ls.len() == 0 { (None, None) } else { sticky_step(sticky_scan(ls.drop_last()), ls.last()) }
}

/// The sticky server in a file's contents at a moment: none without a file,
/// without both values, or once it has expired.
pub open spec fn sticky_of(contents: Option<Seq<char>>, now_ms: u64) -> Option<(nat, nat)> {
    match contents {
        None => None,
        Some(t) => match sticky_scan(text::lines(t)) {
            (Some(id), Some(ms)) => if ms <= now_ms { None } else { Some((id, ms)) },
            _ => None,
        },
    }
}

/// The sticky publish server remembered in a file's contents, if it has not
/// expired by `now_ms`.
pub fn read_persisted_publish_sticky(contents: Option<&str>, now_ms: u64) -> (r: Option<StickyPublishServer>)
    ensures
        match sticky_of(match contents { Some(t) => Some(t@), None => None }, now_ms) {
            None => r is None,
            Some((id, ms)) => r matches Some(s) && s.server_id as nat == id && s.expires_at_unix_ms as nat == ms,
        },
{
    let t = match contents {
        None => return None,
        Some(t) => t,
    };
    let ls = text::split_lines(t);
    let ghost lv = ls@.map_values(|l: &str| l@);
    let mut server_id: Option<u64> = None;
    let mut expires: Option<u64> = None;
    let mut i: usize = 0;
    while i < ls.len()
        invariant
            i <= ls@.len(),
            lv == ls@.map_values(|l: &str| l@),
            (match server_id { Some(v) => Some(v as nat), None => None },
                match expires { Some(v) => Some(v as nat), None => None }) == sticky_scan(lv.subrange(0, i as int)),
            server_id matches Some(v) ==> v <= 255,
        decreases ls@.len() - i,
    {
        let raw = ls[i];
        assert(lv.subrange(0, i + 1).drop_last() =~= lv.subrange(0, i as int));
        assert(lv[i as int] == raw@);
        let before = match text::split_once_char_str(raw, '#') {
            Some((value, _)) => value,
            None => raw,
        };
        let line = text::str_trim(before);
        if line.unicode_len() > 0 {
            match text::split_once_char_str(line, '=') {
                None => {},
                Some((key, value)) => {
                    let k = text::str_trim(key);
                    if text::str_eq(k, "server_id") {
                        server_id = crate::args::parse_unsigned(text::str_trim(value), 255);
                    } else if text::str_eq(k, "expires_at_unix_ms") {
                        expires = crate::args::parse_unsigned(text::str_trim(value), u64::MAX);
                    }
                },
            }
        }
        i = i + 1;
    }
    assert(lv.subrange(0, ls@.len() as int) =~= lv);
    match (server_id, expires) {
        (Some(id), Some(ms)) => if ms <= now_ms {
            None
        } else {
            Some(StickyPublishServer { server_id: id as u8, expires_at_unix_ms: ms })
        },
        _ => None,
    }
}

/// A `key = digits` line of the sticky file, taken apart as the reader does.
proof fn lemma_setting_line(key: Seq<char>, digits: Seq<char>)
    requires
        key.len() > 0,
        digits.len() > 0,
        forall|i: int| 0 <= i < key.len() ==> !text::is_ws(#[trigger] key[i]) && key[i] != '=' && key[i] != '#',
        crate::args::all_digits(digits),
    ensures
        ({
            let line = key + seq![' ', '=', ' '] + digits;
            &&& forall|i: int| 0 <= i < line.len() ==> #[trigger] line[i] != '\n'
            &&& line.last() != '\r'
            &&& uncommented(line) == line
            &&& text::trim(line) == line
            &&& text::split_once_char(line, '=') == Some((key + seq![' '], seq![' '] + digits))
            &&& text::trim(key + seq![' ']) == key
            &&& text::trim(seq![' '] + digits) == digits
        }),
{
    let line = key + seq![' ', '=', ' '] + digits;
    assert forall|i: int| 0 <= i < line.len() implies #[trigger] line[i] != '\n' && line[i] != '#' by {
        if i >= key.len() + 3 {
            assert(line[i] == digits[i - key.len() - 3]);
            assert(text::is_digit(digits[i - key.len() - 3]));
        }
    }
    assert(line.last() == digits.last());
    assert(text::is_digit(digits[digits.len() - 1]));
    assert forall|j: int| 0 <= j && j + 1 <= line.len() implies !text::occurs_at(line, seq!['#'], j) by {
        if text::occurs_at(line, seq!['#'], j) {
            assert(line.subrange(j, j + 1)[0] == line[j]);
        }
    }
    text::lemma_find_from_none(line, seq!['#'], 0);
    // No whitespace at either end of the line.
    text::lemma_lead_len(line, text::ws_pred(), 0);
    text::lemma_trail_len(line, text::ws_pred(), 0);
    assert(text::trim(line) =~= line);
    // The first `=` follows the key and a space.
    let k: int = key.len() as int + 1;
    assert forall|j: int| 0 <= j < k implies !text::occurs_at(line, seq!['='], j) by {
        if text::occurs_at(line, seq!['='], j) {
            assert(line.subrange(j, j + 1)[0] == line[j]);
        }
    }
    assert(text::occurs_at(line, seq!['='], k as int)) by {
        assert(line.subrange(k as int, k + 1) =~= seq!['=']);
    }
    text::lemma_find_from_found(line, seq!['='], 0, k as int);
    assert(line.subrange(0, k as int) =~= key + seq![' ']);
    assert(line.subrange(k + 1, line.len() as int) =~= seq![' '] + digits);
    // A trailing and a leading space are trimmed.
    let ks = key + seq![' '];
    text::lemma_lead_len(ks, text::ws_pred(), 0);
    assert(text::trim_start(ks) =~= ks);
    text::lemma_trail_len(ks, text::ws_pred(), 1);
    assert(text::trim(ks) =~= key);
    let sd = seq![' '] + digits;
    assert(text::is_digit(sd[1]));
    text::lemma_lead_len(sd, text::ws_pred(), 1);
    assert(text::trim_start(sd) =~= digits);
    assert(text::is_digit(sd[sd.len() - 1]));
    text::lemma_trail_len(sd, text::ws_pred(), 0);
    assert(text::trim(sd) =~= digits);
}

/// A sticky server written to its file is read back as long as it has not
/// expired, and not after.
pub proof fn lemma_sticky_server_reads_back(s: StickyPublishServer, now_ms: u64)
    ensures
        sticky_of(Some(sticky_text(s)), now_ms)
            == if s.expires_at_unix_ms > now_ms { Some((s.server_id as nat, s.expires_at_unix_ms as nat)) } else { None },
{
    reveal_strlit("server_id = ");
    reveal_strlit("\nexpires_at_unix_ms = ");
    reveal_strlit("\n");
    reveal_strlit("server_id");
    reveal_strlit("expires_at_unix_ms");
    let id = s.server_id as nat;
    let ms = s.expires_at_unix_ms as nat;
    crate::args::lemma_decimal_reads_back(id, 255);
    crate::args::lemma_decimal_reads_back(ms, u64::MAX as nat);
    let k1 = "server_id"@;
    let k2 = "expires_at_unix_ms"@;
    lemma_setting_line(k1, text::dec(id));
    lemma_setting_line(k2, text::dec(ms));
    let l1 = k1 + seq![' ', '=', ' '] + text::dec(id);
    let l2 = k2 + seq![' ', '=', ' '] + text::dec(ms);
    assert(sticky_text(s) =~= l1 + seq!['\n'] + (l2 + seq!['\n'] + Seq::<char>::empty()));
    lemma_lines_of_line(l2, Seq::empty());
    lemma_lines_of_line(l1, l2 + seq!['\n'] + Seq::<char>::empty());
    let ls = text::lines(sticky_text(s));
    assert(ls =~= seq![l1, l2]);
    assert(ls.drop_last() =~= seq![l1]);
    assert(seq![l1].drop_last() =~= Seq::<Seq<char>>::empty());
    assert(sticky_scan(Seq::<Seq<char>>::empty()) == (None::<nat>, None::<nat>));
    assert(seq![l1].last() == l1);
    assert(sticky_scan(seq![l1]) == sticky_step((None, None), l1));
}

/// How the key server answered a failed publish request.
#[derive(Clone, Copy, Debug, PartialEq, Eq, Structural)]
pub enum PublishStatus {
    RateLimited,
    StoreUnavailable,
    /// Any other answer, or a failure before the server answered.
    Other,
}

/// The short message shown for a failed publish request, where there is
/// one: too many verification emails, or a verification email that could
/// not be sent. Otherwise (`None`) the key server's own error is shown.
pub fn clean_publish_error(status: PublishStatus, message: &str) -> (r: Option<CliMessage>)
    ensures
        status == PublishStatus::RateLimited ==> (r matches Some(m)
            && is_plain_error(m, "Too many verification emails. Try again later."@)),
        status == PublishStatus::StoreUnavailable && message@ == "could not send verification email"@ ==> (r matches Some(m)
            && is_plain_error(m, "Could not send verification email. Try again later."@)),
        status == PublishStatus::Other || (status == PublishStatus::StoreUnavailable
            && message@ != "could not send verification email"@) ==> r is None,
{
    match status {
        PublishStatus::RateLimited => Some(cli_error("Too many verification emails. Try again later.")),
        PublishStatus::StoreUnavailable => {
            if text::str_eq(message, "could not send verification email") {
                Some(cli_error("Could not send verification email. Try again later."))
            } else {
                None
            }
        },
        PublishStatus::Other => None,
    }
}

/// A lockbox the vault remembers, as listed.
#[derive(Clone, Debug)]
pub struct KnownLockboxRow {
    pub name: String,
    pub state: String,
    pub owner: String,
    pub size: String,
    pub lockbox_id: String,
    pub path: String,
}

/// What is found at a remembered lockbox's path.
#[derive(Clone, Debug)]
pub enum KnownLockboxFile {
    /// The file is there: its size as shown, and whether its owner signed
    /// it, when its header could be read.
    Present { size: String, owner_signed: Option<bool> },
    Missing,
    Inaccessible,
}

/// The listing row of a remembered lockbox: named by its file name (or its
/// whole path), with its state, owner signature and size where known.
pub open spec fn known_row(path: Seq<char>, lockbox_id: Seq<char>, file: KnownLockboxFile) -> Seq<Seq<char>> {
    let name = match crate::paths::file_name_of(path) { Some(n) => n, None => path };
    match file {
        KnownLockboxFile::Present { size, owner_signed } => seq![name, "present"@,
            match owner_signed { Some(true) => "signed"@, Some(false) => "unsigned"@, None => "-"@ },
            size@, lockbox_id, path],
        KnownLockboxFile::Missing => seq![name, "missing"@, "-"@, "-"@, lockbox_id, path],
        KnownLockboxFile::Inaccessible => seq![name, "inaccessible"@, "-"@, "-"@, lockbox_id, path],
    }
}

/// The fields of a listing row, in column order.
pub open spec fn row_fields(r: KnownLockboxRow) -> Seq<Seq<char>> {
    seq![r.name@, r.state@, r.owner@, r.size@, r.lockbox_id@, r.path@]
}

/// The listing row of a remembered lockbox.
pub fn known_lockbox_row(path: &str, lockbox_id: &str, file: &KnownLockboxFile) -> (r: KnownLockboxRow)
    ensures row_fields(r) == known_row(path@, lockbox_id@, *file),
{
    let name = match crate::paths::file_name(path) {
        Some(n) => n,
        None => text::owned(path),
    };
    let r = match file {
        KnownLockboxFile::Present { size, owner_signed } => KnownLockboxRow {
            name,
            state: text::owned("present"),
            owner: match owner_signed {
                Some(true) => text::owned("signed"),
                Some(false) => text::owned("unsigned"),
                None => text::owned("-"),
            },
            size: text::owned(size.as_str()),
            lockbox_id: text::owned(lockbox_id),
            path: text::owned(path),
        },
        KnownLockboxFile::Missing => KnownLockboxRow {
            name,
            state: text::owned("missing"),
            owner: text::owned("-"),
            size: text::owned("-"),
            lockbox_id: text::owned(lockbox_id),
            path: text::owned(path),
        },
        KnownLockboxFile::Inaccessible => KnownLockboxRow {
            name,
            state: text::owned("inaccessible"),
            owner: text::owned("-"),
            size: text::owned("-"),
            lockbox_id: text::owned(lockbox_id),
            path: text::owned(path),
        },
    };
    assert(row_fields(r) =~= known_row(path@, lockbox_id@, *file));
    r
}

/// The widest of a header and the values of a column, in bytes.
pub open spec fn column_bytes(header: Seq<char>, values: Seq<Seq<char>>) -> nat
    decreases values.len(),
{
    if values.len() == 0 {
        crate::output::byte_len(header)
    } else {
        let w = column_bytes(header, values.drop_last());
        let v = crate::output::byte_len(values.last());
        if v > w { v } else { w }
    }
}

/// A value right-aligned in a field of `width` characters.
pub open spec fn right_aligned(v: Seq<char>, width: nat) -> Seq<char> {
    if v.len() < width { Seq::new((width - v.len()) as nat, |k: int| ' ') + v } else { v }
}

/// A line of the table of remembered lockboxes: the first five fields padded
/// to their column widths (the size right-aligned), then the path.
pub open spec fn known_table_line(f: Seq<Seq<char>>, w: Seq<nat>) -> Seq<char> {
    crate::output::padded(f[0], w[0]) + "  "@ + crate::output::padded(f[1], w[1]) + "  "@
        + crate::output::padded(f[2], w[2]) + "  "@ + right_aligned(f[3], w[3]) + "  "@
        + crate::output::padded(f[4], w[4]) + "  "@ + f[5]
}

/// The column widths of the table of remembered lockboxes.
pub open spec fn known_widths(rows: Seq<KnownLockboxRow>) -> Seq<nat> {
    let headers = seq!["name"@, "state"@, "owner"@, "size"@, "lockbox_id"@];
    Seq::new(5, |c: int| column_bytes(headers[c], rows.map_values(|r: KnownLockboxRow| row_fields(r)[c])))
}

/// The table of remembered lockboxes: `empty` when there are none, else a
/// header line and one line per lockbox.
pub open spec fn known_table(rows: Seq<KnownLockboxRow>) -> Seq<Seq<char>> {
    if rows.len() == 0 {
        seq!["empty"@]
    } else {
        let w = known_widths(rows);
        seq![known_table_line(seq!["name"@, "state"@, "owner"@, "size"@, "lockbox_id"@, "path"@], w)]
            + rows.map_values(|r: KnownLockboxRow| known_table_line(row_fields(r), w))
    }
}

fn field_of(r: &KnownLockboxRow, c: usize) -> (s: &str)
    requires c < 6,
    ensures s@ == row_fields(*r)[c as int],
{
    if c == 0 { r.name.as_str() } else if c == 1 { r.state.as_str() } else if c == 2 { r.owner.as_str() }
    else if c == 3 { r.size.as_str() } else if c == 4 { r.lockbox_id.as_str() } else { r.path.as_str() }
}

fn right_align_to(out: &mut String, value: &str, width: usize)
    ensures final(out)@ == old(out)@ + right_aligned(value@, width as nat),
{
    let n = value.unicode_len();
    let ghost base = old(out)@;
    if n < width {
        let mut k: usize = 0;
        while k < width - n
            invariant
                k <= width - n,
                out@ == base + Seq::new(k as nat, |j: int| ' '),
            decreases width - n - k,
        {
            text::push_char(out, ' ');
            k = k + 1;
            assert(out@ =~= base + Seq::new(k as nat, |j: int| ' '));
        }
    }
    text::push_str(out, value);
    assert(out@ =~= base + right_aligned(value@, width as nat));
}

fn table_line(fields: [&str; 6], widths: &Vec<usize>) -> (r: String)
    requires widths@.len() == 5,
    ensures r@ == known_table_line(seq![fields[0]@, fields[1]@, fields[2]@, fields[3]@, fields[4]@, fields[5]@],
        widths@.map_values(|w: usize| w as nat)),
{
    let mut out = String::new();
    crate::output::pad_to(&mut out, fields[0], widths[0]);
    text::push_str(&mut out, "  ");
    crate::output::pad_to(&mut out, fields[1], widths[1]);
    text::push_str(&mut out, "  ");
    crate::output::pad_to(&mut out, fields[2], widths[2]);
    text::push_str(&mut out, "  ");
    right_align_to(&mut out, fields[3], widths[3]);
    text::push_str(&mut out, "  ");
    crate::output::pad_to(&mut out, fields[4], widths[4]);
    text::push_str(&mut out, "  ");
    text::push_str(&mut out, fields[5]);
    let ghost f = seq![fields[0]@, fields[1]@, fields[2]@, fields[3]@, fields[4]@, fields[5]@];
    let ghost w = widths@.map_values(|x: usize| x as nat);
    assert(f[0] == fields[0]@ && f[3] == fields[3]@ && f[5] == fields[5]@);
    assert(w[0] == widths@[0] as nat && w[3] == widths@[3] as nat && w[4] == widths@[4] as nat);
    assert(out@ =~= known_table_line(f, w));
    out
}

/// The lines of the table of remembered lockboxes.
pub fn known_lockbox_table(rows: &[KnownLockboxRow]) -> (r: Vec<String>)
    ensures crate::output::row_view(r@) == known_table(rows@),
{
    let mut out: Vec<String> = Vec::new();
    let n = rows.len();
    if n == 0 {
        out.push(text::owned("empty"));
        assert(crate::output::row_view(out@) =~= known_table(rows@));
        return out;
    }
    let headers: [&str; 5] = ["name", "state", "owner", "size", "lockbox_id"];
    let ghost spec_headers = seq!["name"@, "state"@, "owner"@, "size"@, "lockbox_id"@];
    let mut widths: Vec<usize> = Vec::new();
    let mut c: usize = 0;
    while c < 5
        invariant
            c <= 5,
            n == rows@.len(),
            headers@.map_values(|h: &str| h@) == spec_headers,
            widths@.len() == c,
            forall|k: int| 0 <= k < c ==> widths@[k] as nat
                == column_bytes(spec_headers[k], rows@.map_values(|r: KnownLockboxRow| row_fields(r)[k])),
        decreases 5 - c,
    {
        let ghost col = rows@.map_values(|r: KnownLockboxRow| row_fields(r)[c as int]);
        let mut width: usize = headers[c].len();
        assert(headers@[c as int]@ == spec_headers[c as int]);
        let mut i: usize = 0;
        while i < n
            invariant
                i <= n,
                n == rows@.len(),
                c < 5,
                col == rows@.map_values(|r: KnownLockboxRow| row_fields(r)[c as int]),
                width as nat == column_bytes(spec_headers[c as int], col.subrange(0, i as int)),
            decreases n - i,
        {
            assert(col.subrange(0, i + 1).drop_last() =~= col.subrange(0, i as int));
            let v = field_of(&rows[i], c).len();
            if v > width {
                width = v;
            }
            i = i + 1;
        }
        assert(col.subrange(0, n as int) =~= col);
        widths.push(width);
        c = c + 1;
    }
    let ghost w = widths@.map_values(|x: usize| x as nat);
    assert(w =~= known_widths(rows@));
    out.push(table_line(["name", "state", "owner", "size", "lockbox_id", "path"], &widths));
    let mut i: usize = 0;
    while i < n
        invariant
            i <= n,
            n == rows@.len(),
            widths@.len() == 5,
            widths@.map_values(|x: usize| x as nat) == known_widths(rows@),
            out@.len() == i + 1,
            out@[0]@ == known_table_line(seq!["name"@, "state"@, "owner"@, "size"@, "lockbox_id"@, "path"@], known_widths(rows@)),
            forall|k: int| 0 <= k < i ==> #[trigger] out@[k + 1]@ == known_table_line(row_fields(rows@[k]), known_widths(rows@)),
        decreases n - i,
    {
        let r = &rows[i];
        let line = table_line([r.name.as_str(), r.state.as_str(), r.owner.as_str(), r.size.as_str(), r.lockbox_id.as_str(), r.path.as_str()], &widths);
        assert(seq![r.name@, r.state@, r.owner@, r.size@, r.lockbox_id@, r.path@] =~= row_fields(rows@[i as int]));
        out.push(line);
        i = i + 1;
    }
    proof {
        let t = known_table(rows@);
        assert(crate::output::row_view(out@).len() == t.len());
        assert forall|j: int| 0 <= j < t.len() implies crate::output::row_view(out@)[j] == t[j] by {
            if j > 0 {
                assert(out@[(j - 1) + 1]@ == known_table_line(row_fields(rows@[j - 1]), known_widths(rows@)));
            }
        }
        assert(crate::output::row_view(out@) =~= t);
    }
    out
}

/// What `vault init` does.
#[derive(Clone, Copy, Debug, PartialEq, Eq, Structural)]
pub enum InitMode {
    /// Replace the existing vault (`--overwrite`).
    Replace,
    /// Check that the existing vault opens (`--verify`).
    Verify,
    /// Leave the existing vault as it is.
    Unchanged,
    /// Create the vault.
    Create,
}

/// What `vault init` does: `--overwrite` and `--verify` exclude each other;
/// an existing vault is replaced, verified or left alone; otherwise one is created.
pub fn init_mode(overwrite: bool, verify: bool, existed: bool) -> (r: Result<InitMode, ApiError>)
    ensures
        overwrite && verify ==> (r matches Err(ApiError::InvalidInput(m))
            && m@ == "--overwrite and --verify cannot be used together"@),
        !(overwrite && verify) ==> r == Ok::<InitMode, ApiError>(
            if !existed { InitMode::Create } else if overwrite { InitMode::Replace }
            else if verify { InitMode::Verify } else { InitMode::Unchanged }),
{
    if overwrite && verify {
        return Err(ApiError::InvalidInput(text::owned("--overwrite and --verify cannot be used together")));
    }
    if !existed {
        Ok(InitMode::Create)
    } else if overwrite {
        Ok(InitMode::Replace)
    } else if verify {
        Ok(InitMode::Verify)
    } else {
        Ok(InitMode::Unchanged)
    }
}

/// What `vault init` prints before it asks for a pass phrase (all it prints
/// when it changes nothing).
pub open spec fn init_notice(mode: InitMode, vault_path: Seq<char>) -> Seq<Seq<char>> {
    match mode {
        InitMode::Create => seq!["Create the local reVault vault."@, ""@, "Stores:"@, "  - profiles and contacts"@,
            "  - key-directory backups for published lockboxes"@, ""@],
        InitMode::Replace => seq!["Local vault already exists."@, "Path: "@ + vault_path,
            "WARNING: replacing it will remove profiles, contacts and key-directory backups stored in this vault."@],
        InitMode::Verify => seq!["Local vault already exists."@, "Path: "@ + vault_path],
        InitMode::Unchanged => seq!["Local vault already exists."@, "Path: "@ + vault_path,
            "No changes made. Use `lockbox vault init --verify` to validate it."@,
            "Use `lockbox vault init --overwrite` only when replacing the vault."@],
    }
}

/// The lines `vault init` prints before it asks for a pass phrase.
pub fn init_notice_lines(mode: InitMode, vault_path: &str) -> (r: Vec<String>)
    ensures crate::output::row_view(r@) == init_notice(mode, vault_path@),
{
    let mut out: Vec<String> = Vec::new();
    match mode {
        InitMode::Create => {
            out.push(text::owned("Create the local reVault vault."));
            out.push(text::owned(""));
            out.push(text::owned("Stores:"));
            out.push(text::owned("  - profiles and contacts"));
            out.push(text::owned("  - key-directory backups for published lockboxes"));
            out.push(text::owned(""));
        },
        _ => {
            out.push(text::owned("Local vault already exists."));
            out.push(text::concat2("Path: ", vault_path));
            match mode {
                InitMode::Replace => out.push(text::owned(
                    "WARNING: replacing it will remove profiles, contacts and key-directory backups stored in this vault.")),
                InitMode::Unchanged => {
                    out.push(text::owned("No changes made. Use `lockbox vault init --verify` to validate it."));
                    out.push(text::owned("Use `lockbox vault init --overwrite` only when replacing the vault."));
                },
                _ => {},
            }
        },
    }
    assert(crate::output::row_view(out@) =~= init_notice(mode, vault_path@));
    out
}

/// What `vault init` prints once the vault is replaced, opened or created:
/// for a new or replaced vault, the default profile when one was generated
/// and the number of default forms when there are any.
pub open spec fn init_outcome(mode: InitMode, root: Seq<char>, default_profile: Seq<char>, generated: bool, default_forms: nat) -> Seq<Seq<char>> {
    let forms: Seq<Seq<char>> = if default_forms > 0 { seq!["Default forms: "@ + text::dec(default_forms)] } else { Seq::empty() };
    match mode {
        InitMode::Replace => seq!["Vault replaced successfully."@]
            + (if generated { seq!["Created default profile: "@ + default_profile] } else { Seq::empty() }) + forms,
        InitMode::Verify => seq!["Vault opened successfully."@],
        InitMode::Create => seq!["Vault created successfully."@, ""@, "Directory:"@, "  "@ + root]
            + (if generated { seq![""@, "Profile: "@ + default_profile] } else { Seq::empty() }) + forms,
        InitMode::Unchanged => Seq::empty(),
    }
}

/// The lines `vault init` prints once the vault is ready.
pub fn init_outcome_lines(mode: InitMode, root: &str, default_profile: &str, generated: bool, default_forms: usize) -> (r: Vec<String>)
    ensures crate::output::row_view(r@) == init_outcome(mode, root@, default_profile@, generated, default_forms as nat),
{
    let mut out: Vec<String> = Vec::new();
    match mode {
        InitMode::Replace => {
            out.push(text::owned("Vault replaced successfully."));
            if generated {
                out.push(text::concat2("Created default profile: ", default_profile));
            }
        },
        InitMode::Verify => {
            out.push(text::owned("Vault opened successfully."));
        },
        InitMode::Create => {
            out.push(text::owned("Vault created successfully."));
            out.push(text::owned(""));
            out.push(text::owned("Directory:"));
            out.push(text::concat2("  ", root));
            if generated {
                out.push(text::owned(""));
                out.push(text::concat2("Profile: ", default_profile));
            }
        },
        InitMode::Unchanged => {},
    }
    let ghost head = out@;
    if default_forms > 0 && (mode == InitMode::Replace || mode == InitMode::Create) {
        let d = text::decimal(default_forms as u64);
        out.push(text::concat2("Default forms: ", d.as_str()));
    }
    assert(crate::output::row_view(out@) =~= init_outcome(mode, root@, default_profile@, generated, default_forms as nat));
    out
}

/// The reminder `vault init` ends with after creating a vault.
pub const PASS_PHRASE_REMINDER: [&'static str; 4] = [
    "",
    "Pass phrase reminder:",
    "  Store the vault pass phrase somewhere safe.",
    "  If it is lost, reVault cannot recover this vault.",
];

} // verus!
