//! Browser cookie export: the values stored in a Chromium-family cookie
//! database (some of them encrypted with AES-256-GCM under a key that the
//! browser keeps DPAPI-protected in its "Local State" file), the conversion
//! of the database's timestamps, and the Netscape cookie file that the
//! downloader reads.
use vstd::prelude::*;
use vstd::string::StringExecFns;
use vstd::utf8::{decode_utf8, valid_utf8};
use crate::crypto::{
    aes256_gcm_open, aes256_gcm_opened, base64_decode, base64_standard_decoded, byte_range,
    string_from_utf8,
};
use crate::decimal::{int_decimal, push_int_decimal};
use crate::whole_number::{clamp_i64, whole_part, whole_part_i64};
use crate::text::{chars_of, lowercase, push_slice, replace_all, replace_all_exec, string_of, to_lowercase};

verus! {

/// A cookie as a Chromium-family browser stores it: `expires` counts
/// microseconds since 1601-01-01 (0 or less for a session cookie).
#[derive(Clone, Debug)]
pub struct Cookie {
    pub domain: String,
    pub name: String,
    pub value: String,
    pub path: String,
    pub expires: i64,
    pub secure: bool,
}

/// A cookie as the browser's debugging protocol reports it, with `expires`
/// in whole seconds since the Unix epoch (0 or less for a session cookie).
#[derive(Clone, Debug)]
pub struct CdpCookie {
    pub domain: String,
    pub name: String,
    pub value: String,
    pub path: String,
    pub expires: i64,
    pub secure: bool,
    pub http_only: bool,
}

/// Seconds between 1601-01-01 and 1970-01-01.
pub const WINDOWS_TO_UNIX_SECONDS: i64 = 11_644_473_600;

/// A stored expiry converted to Unix seconds: whole seconds since 1601 minus
/// the epoch difference, or 0 for a session cookie.
pub open spec fn unix_expiry(expires: int) -> int {
    if expires > 0 {
        expires / 1_000_000 - 11_644_473_600
    } else {
        0
    }
}

/// Law: a stored expiry converts to Unix seconds by whole seconds: the Unix
/// epoch itself is 0, one more second stored is one more Unix second, a
/// part of a second is dropped, and session cookies get 0.
pub proof fn law_unix_expiry(expires: int, micros: int)
    requires
        expires > 0,
        0 <= micros < 1_000_000,
    ensures
        unix_expiry(11_644_473_600_000_000) == 0,
        unix_expiry(expires + 1_000_000) == unix_expiry(expires) + 1,
        unix_expiry(expires * 1_000_000 + micros) == unix_expiry(expires * 1_000_000),
        unix_expiry(-expires) == 0,
        unix_expiry(0) == 0,
{
    assert((expires + 1_000_000) / 1_000_000 == expires / 1_000_000 + 1) by (nonlinear_arith)
        requires
            expires > 0,
    ;
    assert((expires * 1_000_000 + micros) / 1_000_000 == expires) by (nonlinear_arith)
        requires
            0 <= micros < 1_000_000,
    ;
    assert((expires * 1_000_000) / 1_000_000 == expires) by (nonlinear_arith);
    assert(expires * 1_000_000 + micros > 0) by (nonlinear_arith)
        requires
            expires > 0,
            micros >= 0,
    ;
}

/// Converts a stored expiry to Unix seconds. (The subtraction cannot reach
/// the lower bound of `i64`, so saturating it changes nothing.)
pub fn unix_expiry_of(expires: i64) -> (r: i64)
    ensures
        r == unix_expiry(expires as int),
{
    if expires > 0 {
        expires / 1_000_000 - WINDOWS_TO_UNIX_SECONDS
    } else {
        0
    }
}

/// The cookie domain with a leading '.' added when it has none.
pub open spec fn dotted_domain(d: Seq<char>) -> Seq<char> {
    if d.len() > 0 && d[0] == '.' {
        d
    } else {
        seq!['.'] + d
    }
}

/// "TRUE" or "FALSE".
pub open spec fn bool_word(b: bool) -> Seq<char> {
    if b {
        "TRUE"@
    } else {
        "FALSE"@
    }
}

/// One line of a Netscape cookie file: domain, subdomain flag, path,
/// secure flag, expiry, name and value, separated by tabs.
pub open spec fn cookie_line(
    domain: Seq<char>,
    path: Seq<char>,
    secure: bool,
    expires: int,
    name: Seq<char>,
    value: Seq<char>,
) -> Seq<char> {
    let dom = dotted_domain(domain);
    dom + seq!['\t'] + bool_word(dom.len() > 0 && dom[0] == '.') + seq!['\t'] + path + seq!['\t']
        + bool_word(secure) + seq!['\t'] + int_decimal(expires) + seq!['\t'] + name + seq!['\t']
        + value + seq!['\n']
}

/// The lines for cookies taken from the browser's database.
pub open spec fn stored_cookie_lines(cookies: Seq<Cookie>) -> Seq<char>
    decreases cookies.len(),
{
    if cookies.len() == 0 {
        Seq::empty()
    } else {
        let c = cookies.last();
        stored_cookie_lines(cookies.drop_last()) + cookie_line(
            c.domain@,
            c.path@,
            c.secure,
            unix_expiry(c.expires as int),
            c.name@,
            c.value@,
        )
    }
}

/// A reported expiry as the cookie file holds it: 0 for a session cookie.
pub open spec fn session_expiry(expires: int) -> int {
    if expires > 0 {
        expires
    } else {
        0
    }
}

/// The lines for cookies reported by the debugging protocol.
pub open spec fn cdp_cookie_lines(cookies: Seq<CdpCookie>) -> Seq<char>
    decreases cookies.len(),
{
    if cookies.len() == 0 {
        Seq::empty()
    } else {
        let c = cookies.last();
        cdp_cookie_lines(cookies.drop_last()) + cookie_line(
            c.domain@,
            c.path@,
            c.secure,
            session_expiry(c.expires as int),
            c.name@,
            c.value@,
        )
    }
}

/// The header of a cookie file exported from the database.
pub open spec fn stored_header() -> Seq<char> {
    "# Netscape HTTP Cookie File\n# This file is generated by yt-dlp-ui\n#\n\n"@
}

/// The header of a cookie file exported through the debugging protocol.
pub open spec fn cdp_header() -> Seq<char> {
    "# Netscape HTTP Cookie File\n# This file was generated by yt-dlp-ui\n#\n\n"@
}

/// Law: in every cookie line the domain starts with '.', the subdomain flag
/// that follows it is "TRUE", and the line ends with a newline.
pub proof fn law_cookie_line_shape(
    domain: Seq<char>,
    path: Seq<char>,
    secure: bool,
    expires: int,
    name: Seq<char>,
    value: Seq<char>,
)
    ensures
        ({
            let line = cookie_line(domain, path, secure, expires, name, value);
            let dom = dotted_domain(domain);
            &&& dom[0] == '.'
            &&& line.subrange(0, dom.len() as int) == dom
            &&& line.subrange(dom.len() + 1int, dom.len() + 5int) == "TRUE"@
            &&& line.last() == '\n'
        }),
{
    let line = cookie_line(domain, path, secure, expires, name, value);
    let dom = dotted_domain(domain);
    reveal_strlit("TRUE");
    assert(dom[0] == '.');
    assert(line.subrange(0, dom.len() as int) =~= dom);
    assert(line.subrange(dom.len() + 1int, dom.len() + 5int) =~= "TRUE"@);
}

/// Appends the characters of `s` to `out`.
pub fn push_str(out: &mut Vec<char>, s: &str)
    ensures
        final(out)@ == old(out)@ + s@,
{
    let c = chars_of(s);
    push_slice(out, &c, 0, c.len());
    assert(c@.subrange(0, c@.len() as int) =~= c@);
}

/// The characters of one cookie line.
pub fn cookie_line_chars(
    domain: &str,
    path: &str,
    secure: bool,
    expires: i64,
    name: &str,
    value: &str,
) -> (v: Vec<char>)
    ensures
        v@ == cookie_line(domain@, path@, secure, expires as int, name@, value@),
{
    let mut out: Vec<char> = Vec::new();
    let d = chars_of(domain);
    if !(d.len() > 0 && d[0] == '.') {
        out.push('.');
    }
    push_slice(&mut out, &d, 0, d.len());
    assert(d@.subrange(0, d@.len() as int) =~= d@);
    let ghost dom = dotted_domain(domain@);
    assert(out@ =~= dom);
    assert(dom.len() > 0 && dom[0] == '.');
    out.push('\t');
    push_str(&mut out, "TRUE");
    out.push('\t');
    let ghost p1 = dom + seq!['\t'] + bool_word(true) + seq!['\t'];
    assert(out@ =~= p1);
    push_str(&mut out, path);
    out.push('\t');
    if secure {
        push_str(&mut out, "TRUE");
    } else {
        push_str(&mut out, "FALSE");
    }
    out.push('\t');
    let ghost p2 = p1 + path@ + seq!['\t'] + bool_word(secure) + seq!['\t'];
    assert(out@ =~= p2);
    push_int_decimal(&mut out, expires);
    out.push('\t');
    let ghost p3 = p2 + int_decimal(expires as int) + seq!['\t'];
    assert(out@ =~= p3);
    push_str(&mut out, name);
    out.push('\t');
    push_str(&mut out, value);
    out.push('\n');
    let ghost p4 = p3 + name@ + seq!['\t'] + value@ + seq!['\n'];
    assert(out@ =~= p4);
    out
}

/// Appends one cookie line to `out`.
pub fn push_cookie_line(
    out: &mut Vec<char>,
    domain: &str,
    path: &str,
    secure: bool,
    expires: i64,
    name: &str,
    value: &str,
)
    ensures
        final(out)@ == old(out)@ + cookie_line(domain@, path@, secure, expires as int, name@, value@),
{
    let line = cookie_line_chars(domain, path, secure, expires, name, value);
    push_slice(out, &line, 0, line.len());
    assert(line@.subrange(0, line@.len() as int) =~= line@);
}

/// The Netscape cookie file for cookies taken from the browser's database
/// (`write_netscape` without the write).
pub fn netscape_content(cookies: &Vec<Cookie>) -> (r: String)
    ensures
        r@ == stored_header() + stored_cookie_lines(cookies@),
{
    let mut out = chars_of("# Netscape HTTP Cookie File\n# This file is generated by yt-dlp-ui\n#\n\n");
    let mut i: usize = 0;
    while i < cookies.len()
        invariant
            i <= cookies.len(),
            out@ == stored_header() + stored_cookie_lines(cookies@.take(i as int)),
        decreases cookies.len() - i,
    {
        let c = &cookies[i];
        let e = unix_expiry_of(c.expires);
        push_cookie_line(
            &mut out,
            c.domain.as_str(),
            c.path.as_str(),
            c.secure,
            e,
            c.name.as_str(),
            c.value.as_str(),
        );
        proof {
            assert(cookies@.take(i + 1).drop_last() =~= cookies@.take(i as int));
            assert(cookies@.take(i + 1).last() == cookies@[i as int]);
        }
        i = i + 1;
    }
    assert(cookies@.take(cookies@.len() as int) =~= cookies@);
    string_of(&out)
}

/// The Netscape cookie file for cookies reported by the debugging protocol
/// (`write_netscape_cookies` without the write).
pub fn netscape_cookies_content(cookies: &Vec<CdpCookie>) -> (r: String)
    ensures
        r@ == cdp_header() + cdp_cookie_lines(cookies@),
{
    let mut out = chars_of("# Netscape HTTP Cookie File\n# This file was generated by yt-dlp-ui\n#\n\n");
    let mut i: usize = 0;
    while i < cookies.len()
        invariant
            i <= cookies.len(),
            out@ == cdp_header() + cdp_cookie_lines(cookies@.take(i as int)),
        decreases cookies.len() - i,
    {
        let c = &cookies[i];
        let e: i64 = if c.expires > 0 {
            c.expires
        } else {
            0
        };
        push_cookie_line(
            &mut out,
            c.domain.as_str(),
            c.path.as_str(),
            c.secure,
            e,
            c.name.as_str(),
            c.value.as_str(),
        );
        proof {
            assert(cookies@.take(i + 1).drop_last() =~= cookies@.take(i as int));
            assert(cookies@.take(i + 1).last() == cookies@[i as int]);
        }
        i = i + 1;
    }
    assert(cookies@.take(cookies@.len() as int) =~= cookies@);
    string_of(&out)
}

/// The bytes "DPAPI" that mark a DPAPI-protected key.
pub open spec fn dpapi_marker() -> Seq<u8> {
    seq![0x44u8, 0x50u8, 0x41u8, 0x50u8, 0x49u8]
}

/// The protected key inside a decoded "Local State" key blob: the bytes after
/// the "DPAPI" marker, when the blob is longer than the marker and starts with it.
pub open spec fn dpapi_payload(blob: Seq<u8>) -> Option<Seq<u8>> {
    if blob.len() < 6 || blob.subrange(0, 5) != dpapi_marker() {
        None
    } else {
        Some(blob.subrange(5, blob.len() as int))
    }
}

/// The protected key inside a decoded key blob.
pub fn dpapi_payload_of(blob: &Vec<u8>) -> (r: Option<Vec<u8>>)
    ensures
        match dpapi_payload(blob@) {
            Some(p) => r matches Some(v) && v@ == p,
            None => r is None,
        },
{
    if blob.len() < 6 {
        return None;
    }
    let marker = blob[0] == 0x44 && blob[1] == 0x50 && blob[2] == 0x41 && blob[3] == 0x50 && blob[4]
        == 0x49;
    if !marker {
        proof {
            if blob@.subrange(0, 5) == dpapi_marker() {
                assert(blob@.subrange(0, 5)[0] == blob@[0]);
                assert(blob@.subrange(0, 5)[1] == blob@[1]);
                assert(blob@.subrange(0, 5)[2] == blob@[2]);
                assert(blob@.subrange(0, 5)[3] == blob@[3]);
                assert(blob@.subrange(0, 5)[4] == blob@[4]);
            }
        }
        return None;
    }
    assert(blob@.subrange(0, 5) =~= dpapi_marker());
    let mut v: Vec<u8> = Vec::new();
    let mut i: usize = 5;
    while i < blob.len()
        invariant
            5 <= i <= blob.len(),
            v@ == blob@.subrange(5, i as int),
        decreases blob.len() - i,
    {
        v.push(blob[i]);
        i = i + 1;
    }
    Some(v)
}

/// The protected AES key named by the Base64 `encrypted_key` of a browser's
/// "Local State" file (the part of `get_aes_key` between reading the file
/// and the DPAPI call).
pub fn encrypted_key_payload(encrypted_key_b64: &str) -> (r: Option<Vec<u8>>)
    ensures
        match base64_standard_decoded(encrypted_key_b64@) {
            Some(blob) => match dpapi_payload(blob) {
                Some(p) => r matches Some(v) && v@ == p,
                None => r is None,
            },
            None => r is None,
        },
{
    match base64_decode(encrypted_key_b64) {
        Some(blob) => dpapi_payload_of(&blob),
        None => None,
    }
}

/// An encrypted value's version prefix: "v10" or "v11".
pub open spec fn has_cipher_prefix(enc: Seq<u8>) -> bool {
    enc.len() >= 3 && enc[0] == 0x76u8 && enc[1] == 0x31u8 && (enc[2] == 0x30u8 || enc[2] == 0x31u8)
}

/// The text of an encrypted cookie value: for a value of at least 31 bytes
/// with a "v10"/"v11" prefix and a 32-byte key, the AES-256-GCM plaintext of
/// the bytes after the 12-byte nonce that follows the prefix, when that
/// plaintext is valid UTF-8.
pub open spec fn decrypted_value(enc: Seq<u8>, key: Seq<u8>) -> Option<Seq<char>> {
    if enc.len() < 3 + 12 + 16 || key.len() != 32 || !has_cipher_prefix(enc) {
        None
    } else {
        match aes256_gcm_opened(key, enc.subrange(3, 15), enc.subrange(15, enc.len() as int)) {
            Some(p) => if valid_utf8(p) {
                Some(decode_utf8(p))
            } else {
                None
            },
            None => None,
        }
    }
}

/// Law: only a value of at least 31 bytes with a "v10" or "v11" prefix,
/// under a 32-byte key, can be decrypted.
pub proof fn law_decryptable_shape(enc: Seq<u8>, key: Seq<u8>)
    ensures
        decrypted_value(enc, key) is Some ==> enc.len() >= 31 && key.len() == 32 && has_cipher_prefix(
            enc,
        ),
{
}

/// Law: a value made of a "v10" or "v11" prefix, a 12-byte nonce and the
/// sealed bytes (at least the 16-byte tag) decrypts, under a 32-byte key,
/// to the UTF-8 text of what AES-256-GCM opens from the sealed bytes with
/// that nonce, and to nothing when that fails or is not UTF-8.
pub proof fn law_decrypt_layout(version: u8, nonce: Seq<u8>, sealed: Seq<u8>, key: Seq<u8>)
    requires
        version == 0x30u8 || version == 0x31u8,
        nonce.len() == 12,
        sealed.len() >= 16,
        key.len() == 32,
    ensures
        decrypted_value(seq![0x76u8, 0x31u8, version] + nonce + sealed, key) == match aes256_gcm_opened(
            key,
            nonce,
            sealed,
        ) {
            Some(p) => if valid_utf8(p) {
                Some(decode_utf8(p))
            } else {
                None
            },
            None => None::<Seq<char>>,
        },
{
    let enc = seq![0x76u8, 0x31u8, version] + nonce + sealed;
    assert(enc.subrange(3, 15) =~= nonce);
    assert(enc.subrange(15, enc.len() as int) =~= sealed);
    assert(has_cipher_prefix(enc));
}

/// Law: a decoded key blob yields the bytes after the "DPAPI" marker exactly
/// when it starts with the marker and has at least one byte after it.
pub proof fn law_dpapi_payload(key: Seq<u8>, blob: Seq<u8>)
    ensures
        key.len() > 0 ==> dpapi_payload(dpapi_marker() + key) == Some(key),
        dpapi_payload(blob) matches Some(k) ==> blob == dpapi_marker() + k && k.len() > 0,
{
    let b = dpapi_marker() + key;
    assert(b.subrange(0, 5) =~= dpapi_marker());
    assert(b.subrange(5, b.len() as int) =~= key);
    if let Some(k) = dpapi_payload(blob) {
        assert(blob =~= blob.subrange(0, 5) + k);
    }
}

/// Decrypts a cookie value encrypted by the browser (`decrypt_value`).
pub fn decrypt_value(encrypted: &[u8], key: &[u8]) -> (r: Option<String>)
    ensures
        match decrypted_value(encrypted@, key@) {
            Some(t) => r matches Some(s) && s@ == t,
            None => r is None,
        },
{
    if encrypted.len() < 3 + 12 + 16 || key.len() != 32 {
        return None;
    }
    if !(encrypted[0] == 0x76 && encrypted[1] == 0x31 && (encrypted[2] == 0x30 || encrypted[2]
        == 0x31)) {
        return None;
    }
    let nonce = byte_range(encrypted, 3, 15);
    let sealed = byte_range(encrypted, 15, encrypted.len());
    match aes256_gcm_open(key, nonce.as_slice(), sealed.as_slice()) {
        Some(plain) => string_from_utf8(plain),
        None => None,
    }
}

/// The value to export for a stored cookie: the plain value when there is
/// no encrypted value (or it is empty); otherwise its decrypted text, or
/// empty when there is no key or decryption fails.
pub open spec fn stored_value(plain: Seq<char>, enc: Option<Seq<u8>>, key: Option<Seq<u8>>) -> Seq<
    char,
> {
    match enc {
        Some(e) => if e.len() > 0 {
            match key {
                Some(k) => match decrypted_value(e, k) {
                    Some(t) => t,
                    None => Seq::empty(),
                },
                None => Seq::empty(),
            }
        } else {
            plain
        },
        None => plain,
    }
}

/// The byte views of optional byte vectors.
pub open spec fn opt_bytes(o: Option<Vec<u8>>) -> Option<Seq<u8>> {
    match o {
        Some(v) => Some(v@),
        None => None,
    }
}

/// The value to export for one row of the browser's cookie table (the
/// value rule of `query_cookies`).
pub fn cookie_value(plain: String, encrypted: Option<Vec<u8>>, key: &Option<Vec<u8>>) -> (r: String)
    ensures
        r@ == stored_value(plain@, opt_bytes(encrypted), opt_bytes(*key)),
{
    match encrypted {
        Some(enc) => {
            if enc.len() > 0 {
                match key {
                    Some(k) => match decrypt_value(enc.as_slice(), k.as_slice()) {
                        Some(t) => t,
                        None => String::new(),
                    },
                    None => String::new(),
                }
            } else {
                plain
            }
        },
        None => plain,
    }
}

/// Where a Chromium-family browser is installed: the base directory to look
/// in, the vendor and product directory names, and its user data directory.
pub struct ChromeInstall {
    pub base: String,
    pub vendor: String,
    pub product: String,
    pub install_dir: String,
    pub user_data_dir: String,
}

/// The install layout of a browser by its lower-cased name, as (base,
/// vendor, product, the folder that holds its `Application` folder, user
/// data directory), or the refusal message.
pub open spec fn chrome_install_of(
    lower: Seq<char>,
    browser: Seq<char>,
    local: Seq<char>,
    roaming: Seq<char>,
) -> Result<(Seq<char>, Seq<char>, Seq<char>, Seq<char>, Seq<char>), Seq<char>> {
    if lower == "chrome"@ {
        Ok((local, "Google"@, "Chrome"@, "Google\\Chrome"@, local + "\\Google\\Chrome\\User Data"@))
    } else if lower == "edge"@ {
        Ok((local, "Microsoft"@, "Edge"@, "Microsoft\\Edge"@, local + "\\Microsoft\\Edge\\User Data"@))
    } else if lower == "brave"@ {
        Ok(
            (
                local,
                "BraveSoftware"@,
                "Brave-Browser"@,
                "BraveSoftware\\Brave-Browser"@,
                local + "\\BraveSoftware\\Brave-Browser\\User Data"@,
            ),
        )
    } else if lower == "chromium"@ {
        Ok((local, "Chromium"@, "Application"@, "Chromium"@, local + "\\Chromium\\User Data"@))
    } else if lower == "opera"@ {
        Ok(
            (
                roaming,
                "Opera Software"@,
                "Opera Stable"@,
                "Opera Software\\Opera Stable"@,
                roaming + "\\Opera Software\\Opera Stable"@,
            ),
        )
    } else if lower == "vivaldi"@ {
        Ok((local, "Vivaldi"@, "Application"@, "Vivaldi"@, local + "\\Vivaldi\\User Data"@))
    } else if lower == "firefox"@ {
        Err("Firefox 请使用 yt-dlp 方式提取"@)
    } else {
        Err("不支持的浏览器: "@ + browser)
    }
}

/// Builds a string from characters.
fn text_of(v: Vec<char>) -> (s: String)
    ensures
        s@ == v@,
{
    string_of(&v)
}

/// The concatenation `a + b`.
fn concat2(a: &str, b: &str) -> (s: String)
    ensures
        s@ == a@ + b@,
{
    let mut v = chars_of(a);
    push_str(&mut v, b);
    text_of(v)
}

/// The concatenation `a + b + c`.
fn concat3(a: &str, b: &str, c: &str) -> (s: String)
    ensures
        s@ == a@ + b@ + c@,
{
    let mut v = chars_of(a);
    push_str(&mut v, b);
    push_str(&mut v, c);
    text_of(v)
}

fn install(base: &str, vendor: &str, product: &str, dir: &str, data_suffix: &str) -> (r:
    ChromeInstall)
    ensures
        r.base@ == base@,
        r.vendor@ == vendor@,
        r.product@ == product@,
        r.install_dir@ == dir@,
        r.user_data_dir@ == base@ + data_suffix@,
{
    ChromeInstall {
        base: String::from_str(base),
        vendor: String::from_str(vendor),
        product: String::from_str(product),
        install_dir: String::from_str(dir),
        user_data_dir: concat2(base, data_suffix),
    }
}

/// The install layout of a browser, by name in any case (the layout part of
/// `find_browser_paths`; the caller reads the environment and probes files).
pub fn browser_install(browser: &str, local_appdata: &str, roaming_appdata: &str) -> (r: Result<
    ChromeInstall,
    String,
>)
    ensures
        match chrome_install_of(lowercase(browser@), browser@, local_appdata@, roaming_appdata@) {
            Ok((base, vendor, product, dir, data)) => r matches Ok(i) && i.base@ == base
                && i.vendor@ == vendor && i.product@ == product && i.install_dir@ == dir
                && i.user_data_dir@ == data,
            Err(msg) => r matches Err(e) && e@ == msg,
        },
{
    let lower = to_lowercase(browser);
    if lower == String::from_str("chrome") {
        Ok(install(local_appdata, "Google", "Chrome", "Google\\Chrome", "\\Google\\Chrome\\User Data"))
    } else if lower == String::from_str("edge") {
        Ok(install(local_appdata, "Microsoft", "Edge", "Microsoft\\Edge", "\\Microsoft\\Edge\\User Data"))
    } else if lower == String::from_str("brave") {
        Ok(
            install(
                local_appdata,
                "BraveSoftware",
                "Brave-Browser",
                "BraveSoftware\\Brave-Browser",
                "\\BraveSoftware\\Brave-Browser\\User Data",
            ),
        )
    } else if lower == String::from_str("chromium") {
        Ok(install(local_appdata, "Chromium", "Application", "Chromium", "\\Chromium\\User Data"))
    } else if lower == String::from_str("opera") {
        Ok(
            install(
                roaming_appdata,
                "Opera Software",
                "Opera Stable",
                "Opera Software\\Opera Stable",
                "\\Opera Software\\Opera Stable",
            ),
        )
    } else if lower == String::from_str("vivaldi") {
        Ok(install(local_appdata, "Vivaldi", "Application", "Vivaldi", "\\Vivaldi\\User Data"))
    } else if lower == String::from_str("firefox") {
        Err(String::from_str("Firefox 请使用 yt-dlp 方式提取"))
    } else {
        Err(concat2("不支持的浏览器: ", browser))
    }
}

/// Where to look for a browser's executable, in order: the `Application`
/// folder inside its install folder `dir` (such as `Google\\Chrome`) under
/// the base directory, then under both program-files directories; the file
/// is named after the product, in lower case.
pub open spec fn exe_candidates(base: Seq<char>, dir: Seq<char>, product: Seq<char>) -> Seq<
    Seq<char>,
> {
    let exe = "\\Application\\"@ + lowercase(product) + ".exe"@;
    seq![
        base + "\\"@ + dir + exe,
        "C:\\Program Files\\"@ + dir + exe,
        "C:\\Program Files (x86)\\"@ + dir + exe,
    ]
}

/// The views of a list of strings.
pub open spec fn text_views(v: Seq<String>) -> Seq<Seq<char>> {
    v.map_values(|s: String| s@)
}

/// The candidate paths of a browser's executable.
pub fn chrome_exe_candidates(base: &str, dir: &str, product: &str) -> (r: Vec<String>)
    ensures
        text_views(r@) == exe_candidates(base@, dir@, product@),
{
    let lower = to_lowercase(product);
    let mut exe = chars_of("\\Application\\");
    push_str(&mut exe, lower.as_str());
    push_str(&mut exe, ".exe");
    let exe_s = text_of(exe);
    let mut r: Vec<String> = Vec::new();
    let mut first = chars_of(base);
    push_str(&mut first, "\\");
    push_str(&mut first, dir);
    push_str(&mut first, exe_s.as_str());
    r.push(text_of(first));
    r.push(concat3("C:\\Program Files\\", dir, exe_s.as_str()));
    r.push(concat3("C:\\Program Files (x86)\\", dir, exe_s.as_str()));
    assert(text_views(r@) =~= exe_candidates(base@, dir@, product@));
    r
}

/// The first candidate that exists, if any (`exists[i]` tells whether
/// `candidates[i]` exists).
pub open spec fn first_existing(candidates: Seq<Seq<char>>, exists: Seq<bool>, i: int) -> Option<
    Seq<char>,
>
    decreases candidates.len() - i,
{
    if i < 0 || i >= candidates.len() {
        None
    } else if i < exists.len() && exists[i] {
        Some(candidates[i])
    } else {
        first_existing(candidates, exists, i + 1)
    }
}

/// Law: the chosen executable is a candidate that exists, and no earlier
/// candidate exists; when none is chosen, no candidate exists.
pub proof fn law_first_existing(candidates: Seq<Seq<char>>, exists: Seq<bool>, i: int)
    requires
        0 <= i <= candidates.len(),
        exists.len() == candidates.len(),
    ensures
        match first_existing(candidates, exists, i) {
            Some(p) => exists|k: int|
                i <= k < candidates.len() && candidates[k] == p && #[trigger] exists[k] && forall|
                    j: int,
                | i <= j < k ==> !#[trigger] exists[j],
            None => forall|j: int| i <= j < candidates.len() ==> !#[trigger] exists[j],
        },
    decreases candidates.len() - i,
{
    if i < candidates.len() && !exists[i] {
        law_first_existing(candidates, exists, i + 1);
    }
}

/// The executable of a browser: the first candidate path that exists, or
/// an error naming the product (`find_chrome_exe`; the caller probes the
/// files and passes what it found).
pub fn find_chrome_exe(candidates: &Vec<String>, exists: &Vec<bool>, product: &str) -> (r: Result<
    String,
    String,
>)
    ensures
        match first_existing(text_views(candidates@), exists@, 0) {
            Some(p) => r matches Ok(s) && s@ == p,
            None => r matches Err(e) && e@ == "找不到 "@ + product@ + " 浏览器可执行文件"@,
        },
{
    let ghost views = text_views(candidates@);
    let mut i: usize = 0;
    while i < candidates.len()
        invariant
            i <= candidates.len(),
            views == text_views(candidates@),
            views.len() == candidates@.len(),
            first_existing(views, exists@, 0) == first_existing(views, exists@, i as int),
        decreases candidates.len() - i,
    {
        if i < exists.len() && exists[i] {
            assert(views[i as int] == candidates@[i as int]@);
            return Ok(candidates[i].clone());
        }
        i = i + 1;
    }
    Err(concat3("找不到 ", product, " 浏览器可执行文件"))
}

/// The cookie database and "Local State" file of a browser: either known
/// outright, or a current and a legacy database location to probe.
pub enum CookieFiles {
    Known { cookies: String, local_state: String },
    Probe { network: String, legacy: String, local_state: String },
}

/// `CookieFiles` by the views of its paths.
pub enum CookieFilesView {
    Known { cookies: Seq<char>, local_state: Seq<char> },
    Probe { network: Seq<char>, legacy: Seq<char>, local_state: Seq<char> },
}

impl View for CookieFiles {
    type V = CookieFilesView;

    open spec fn view(&self) -> CookieFilesView {
        match self {
            CookieFiles::Known { cookies, local_state } => CookieFilesView::Known {
                cookies: cookies@,
                local_state: local_state@,
            },
            CookieFiles::Probe { network, legacy, local_state } => CookieFilesView::Probe {
                network: network@,
                legacy: legacy@,
                local_state: local_state@,
            },
        }
    }
}

/// The files to probe under a user data directory.
pub open spec fn probe_files(user_data: Seq<char>) -> CookieFilesView {
    CookieFilesView::Probe {
        network: user_data + "\\Default\\Network\\Cookies"@,
        legacy: user_data + "\\Default\\Cookies"@,
        local_state: user_data + "\\Local State"@,
    }
}

/// The cookie files of a browser by its lower-cased name, or the refusal message.
pub open spec fn cookie_files_of(
    lower: Seq<char>,
    browser: Seq<char>,
    local: Seq<char>,
    roaming: Seq<char>,
) -> Result<CookieFilesView, Seq<char>> {
    if lower == "chrome"@ {
        Ok(probe_files(local + "\\Google\\Chrome\\User Data"@))
    } else if lower == "edge"@ {
        Ok(probe_files(local + "\\Microsoft\\Edge\\User Data"@))
    } else if lower == "brave"@ {
        Ok(probe_files(local + "\\BraveSoftware\\Brave-Browser\\User Data"@))
    } else if lower == "chromium"@ {
        Ok(probe_files(local + "\\Chromium\\User Data"@))
    } else if lower == "opera"@ {
        Ok(
            CookieFilesView::Known {
                cookies: roaming + "\\Opera Software\\Opera Stable\\Network\\Cookies"@,
                local_state: roaming + "\\Opera Software\\Opera Stable\\Local State"@,
            },
        )
    } else if lower == "vivaldi"@ {
        Ok(probe_files(local + "\\Vivaldi\\User Data"@))
    } else if lower == "firefox"@ {
        Err("Firefox 暂不支持自动提取，请手动导出 cookies。"@)
    } else {
        Err("不支持的浏览器: "@ + browser)
    }
}

/// Law: the cookie files of every supported browser lie in that browser's
/// own user data directory, the one its install layout names: the current
/// and legacy databases and "Local State" for each, and for Opera, whose
/// profile is that directory itself, `Network\\Cookies` and "Local State"
/// in it. A browser that has no install layout has no cookie files either.
pub proof fn law_cookie_files_follow_install(
    lower: Seq<char>,
    browser: Seq<char>,
    local: Seq<char>,
    roaming: Seq<char>,
)
    ensures
        match chrome_install_of(lower, browser, local, roaming) {
            Ok((base, vendor, product, dir, data)) => if lower == "opera"@ {
                cookie_files_of(lower, browser, local, roaming) == Ok::<CookieFilesView, Seq<char>>(
                    CookieFilesView::Known {
                        cookies: data + "\\Network\\Cookies"@,
                        local_state: data + "\\Local State"@,
                    },
                )
            } else {
                cookie_files_of(lower, browser, local, roaming) == Ok::<CookieFilesView, Seq<char>>(
                    probe_files(data),
                )
            },
            Err(_) => cookie_files_of(lower, browser, local, roaming) is Err,
        },
{
    reveal_strlit("chrome");
    reveal_strlit("edge");
    reveal_strlit("brave");
    reveal_strlit("chromium");
    reveal_strlit("opera");
    reveal_strlit("vivaldi");
    assert("opera"@[0] != "brave"@[0]);
    if lower == "opera"@ {
        assert(lower != "brave"@);
        let data = roaming + "\\Opera Software\\Opera Stable"@;
        reveal_strlit("\\Opera Software\\Opera Stable");
        reveal_strlit("\\Opera Software\\Opera Stable\\Network\\Cookies");
        reveal_strlit("\\Opera Software\\Opera Stable\\Local State");
        reveal_strlit("\\Network\\Cookies");
        reveal_strlit("\\Local State");
        assert(roaming + "\\Opera Software\\Opera Stable\\Network\\Cookies"@ =~= data
            + "\\Network\\Cookies"@);
        assert(roaming + "\\Opera Software\\Opera Stable\\Local State"@ =~= data
            + "\\Local State"@);
    } else if lower == "brave"@ {
        assert(lower != "opera"@);
    }
}

fn probe(user_data: &str) -> (r: CookieFiles)
    ensures
        r@ == probe_files(user_data@),
{
    CookieFiles::Probe {
        network: concat2(user_data, "\\Default\\Network\\Cookies"),
        legacy: concat2(user_data, "\\Default\\Cookies"),
        local_state: concat2(user_data, "\\Local State"),
    }
}

fn probe_under(base: &str, suffix: &str) -> (r: CookieFiles)
    ensures
        r@ == probe_files(base@ + suffix@),
{
    let dir = concat2(base, suffix);
    probe(dir.as_str())
}

/// The cookie files of a browser, by name in any case (the layout part of
/// `find_browser_data`; the caller reads the environment).
pub fn browser_cookie_files(browser: &str, local_appdata: &str, roaming_appdata: &str) -> (r: Result<
    CookieFiles,
    String,
>)
    ensures
        match cookie_files_of(lowercase(browser@), browser@, local_appdata@, roaming_appdata@) {
            Ok(f) => r matches Ok(files) && files@ == f,
            Err(msg) => r matches Err(e) && e@ == msg,
        },
{
    let lower = to_lowercase(browser);
    if lower == String::from_str("chrome") {
        Ok(probe_under(local_appdata, "\\Google\\Chrome\\User Data"))
    } else if lower == String::from_str("edge") {
        Ok(probe_under(local_appdata, "\\Microsoft\\Edge\\User Data"))
    } else if lower == String::from_str("brave") {
        Ok(probe_under(local_appdata, "\\BraveSoftware\\Brave-Browser\\User Data"))
    } else if lower == String::from_str("chromium") {
        Ok(probe_under(local_appdata, "\\Chromium\\User Data"))
    } else if lower == String::from_str("opera") {
        Ok(
            CookieFiles::Known {
                cookies: concat2(roaming_appdata, "\\Opera Software\\Opera Stable\\Network\\Cookies"),
                local_state: concat2(roaming_appdata, "\\Opera Software\\Opera Stable\\Local State"),
            },
        )
    } else if lower == String::from_str("vivaldi") {
        Ok(probe_under(local_appdata, "\\Vivaldi\\User Data"))
    } else if lower == String::from_str("firefox") {
        Err(String::from_str("Firefox 暂不支持自动提取，请手动导出 cookies。"))
    } else {
        Err(concat2("不支持的浏览器: ", browser))
    }
}

/// The cookie database and "Local State" file to use, given which of the
/// probed files exist: the current database before the legacy one, and an
/// error when neither exists or the "Local State" file is missing.
pub open spec fn chosen_cookie_files(
    files: CookieFilesView,
    browser: Seq<char>,
    network_exists: bool,
    legacy_exists: bool,
    local_state_exists: bool,
) -> Result<(Seq<char>, Seq<char>), Seq<char>> {
    match files {
        CookieFilesView::Known { cookies, local_state } => Ok((cookies, local_state)),
        CookieFilesView::Probe { network, legacy, local_state } => if !network_exists
            && !legacy_exists {
            Err("找不到 "@ + browser + " 的 Cookie 数据库文件"@)
        } else if !local_state_exists {
            Err("找不到 "@ + browser + " 的 Local State 文件"@)
        } else if network_exists {
            Ok((network, local_state))
        } else {
            Ok((legacy, local_state))
        },
    }
}

/// Law: for probed files, a database and "Local State" are chosen exactly
/// when some database exists and "Local State" exists; the current database
/// is preferred to the legacy one. Known files are taken as they are.
pub proof fn law_cookie_files_choice(
    network: Seq<char>,
    legacy: Seq<char>,
    local_state: Seq<char>,
    browser: Seq<char>,
    network_exists: bool,
    legacy_exists: bool,
    local_state_exists: bool,
)
    ensures
        (chosen_cookie_files(
            CookieFilesView::Probe { network, legacy, local_state },
            browser,
            network_exists,
            legacy_exists,
            local_state_exists,
        ) is Ok) == ((network_exists || legacy_exists) && local_state_exists),
        chosen_cookie_files(
            CookieFilesView::Probe { network, legacy, local_state },
            browser,
            network_exists,
            legacy_exists,
            local_state_exists,
        ) matches Ok((c, l)) ==> l == local_state && c == if network_exists {
            network
        } else {
            legacy
        },
        chosen_cookie_files(
            CookieFilesView::Known { cookies: network, local_state },
            browser,
            network_exists,
            legacy_exists,
            local_state_exists,
        ) == Ok::<(Seq<char>, Seq<char>), Seq<char>>((network, local_state)),
{
}

/// Chooses the cookie database and "Local State" file (the decision part of
/// `find_browser_data`; the caller probes the files of a `Probe`).
pub fn choose_cookie_files(
    files: CookieFiles,
    browser: &str,
    network_exists: bool,
    legacy_exists: bool,
    local_state_exists: bool,
) -> (r: Result<(String, String), String>)
    ensures
        match chosen_cookie_files(files@, browser@, network_exists, legacy_exists, local_state_exists) {
            Ok((c, l)) => r matches Ok(p) && p.0@ == c && p.1@ == l,
            Err(msg) => r matches Err(e) && e@ == msg,
        },
{
    match files {
        CookieFiles::Known { cookies, local_state } => Ok((cookies, local_state)),
        CookieFiles::Probe { network, legacy, local_state } => {
            if !network_exists && !legacy_exists {
                return Err(concat3("找不到 ", browser, " 的 Cookie 数据库文件"));
            }
            if !local_state_exists {
                return Err(concat3("找不到 ", browser, " 的 Local State 文件"));
            }
            if network_exists {
                Ok((network, local_state))
            } else {
                Ok((legacy, local_state))
            }
        },
    }
}

/// The name of the exported cookie file: `cookies-<browser>.txt`.
pub fn cookies_file_name(browser: &str) -> (r: String)
    ensures
        r@ == "cookies-"@ + browser@ + ".txt"@,
{
    concat3("cookies-", browser, ".txt")
}

/// The read-only, immutable SQLite URI of a database path, with '\\'
/// written as '/'.
pub fn readonly_db_uri(db_path: &str) -> (r: String)
    ensures
        r@ == "file:"@ + replace_all(db_path@, "\\"@, "/"@) + "?mode=ro&immutable=1"@,
{
    let p = chars_of(db_path);
    let from = chars_of("\\");
    let to = chars_of("/");
    proof {
        reveal_strlit("\\");
    }
    let replaced = text_of(replace_all_exec(&p, &from, &to));
    concat3("file:", replaced.as_str(), "?mode=ro&immutable=1")
}

/// The message when a locked database could not be read either.
pub fn locked_db_message(browser: &str, error: &str) -> (r: String)
    ensures
        r@ == browser@ + " Cookie 数据库被锁定且无法直接读取。请关闭所有浏览器窗口和后台进程后重试。\n\n"@
            + error@,
{
    concat3(browser, " Cookie 数据库被锁定且无法直接读取。请关闭所有浏览器窗口和后台进程后重试。\n\n", error)
}

/// What one poll of the browser's debugging endpoint gave.
pub enum CdpProbe {
    /// The request failed.
    NoAnswer,
    /// The endpoint answered with a status other than success.
    NotReady,
    /// The answer was not JSON; the parser's message.
    BadJson(String),
    /// The JSON answer, with its `webSocketDebuggerUrl` when that is a string.
    Answer(Option<String>),
}

/// The outcome of one poll: `None` to keep waiting, or the WebSocket URL, or
/// the error that ends the wait.
pub open spec fn cdp_probe_result(probe: CdpProbe) -> Option<Result<Seq<char>, Seq<char>>> {
    match probe {
        CdpProbe::NoAnswer => None,
        CdpProbe::NotReady => None,
        CdpProbe::BadJson(e) => Some(Err("解析失败: "@ + e@)),
        CdpProbe::Answer(Some(u)) => Some(Ok(u@)),
        CdpProbe::Answer(None) => Some(Err("未找到 WebSocket URL"@)),
    }
}

/// Decides what one poll of the debugging endpoint means (the decision part
/// of `wait_for_cdp`; the caller polls, sleeps between polls and keeps time).
pub fn cdp_probe_outcome(probe: CdpProbe) -> (r: Option<Result<String, String>>)
    ensures
        match cdp_probe_result(probe) {
            None => r is None,
            Some(Ok(u)) => r matches Some(Ok(s)) && s@ == u,
            Some(Err(m)) => r matches Some(Err(e)) && e@ == m,
        },
{
    match probe {
        CdpProbe::NoAnswer => None,
        CdpProbe::NotReady => None,
        CdpProbe::BadJson(e) => Some(Err(concat2("解析失败: ", e.as_str()))),
        CdpProbe::Answer(Some(u)) => Some(Ok(u)),
        CdpProbe::Answer(None) => Some(Err(String::from_str("未找到 WebSocket URL"))),
    }
}

/// The error that ends the wait once more than `timeout_ms` milliseconds have
/// passed; `None` while there is time left.
pub fn cdp_deadline(elapsed_ms: u128, timeout_ms: u64) -> (r: Option<String>)
    ensures
        elapsed_ms > timeout_ms ==> (r matches Some(e) && e@ == "CDP 调试服务启动超时"@),
        elapsed_ms <= timeout_ms ==> r is None,
{
    if elapsed_ms > timeout_ms as u128 {
        Some(String::from_str("CDP 调试服务启动超时"))
    } else {
        None
    }
}

/// The fields of one cookie in the reply to `Network.getAllCookies`, each
/// `None` where the reply lacks it or gives it another JSON type; the
/// expiry is kept as the text of its JSON number.
pub struct CdpFieldsText {
    pub domain: Option<String>,
    pub name: Option<String>,
    pub value: Option<String>,
    pub path: Option<String>,
    pub expires: Option<String>,
    pub secure: Option<bool>,
    pub http_only: Option<bool>,
}

/// The fields of a reported cookie as plain values: domain, name, value,
/// path, expiry text, secure and httpOnly.
pub type CdpFieldsView = (
    Option<Seq<char>>,
    Option<Seq<char>>,
    Option<Seq<char>>,
    Option<Seq<char>>,
    Option<Seq<char>>,
    Option<bool>,
    Option<bool>,
);

/// The text of an optional string.
pub open spec fn opt_view(o: Option<String>) -> Option<Seq<char>> {
    match o {
        Some(s) => Some(s@),
        None => None,
    }
}

/// The reported fields as plain values.
pub open spec fn fields_view(f: CdpFieldsText) -> CdpFieldsView {
    (
        opt_view(f.domain),
        opt_view(f.name),
        opt_view(f.value),
        opt_view(f.path),
        opt_view(f.expires),
        f.secure,
        f.http_only,
    )
}

/// A parsed message as plain values: its id and its cookies' fields.
pub open spec fn reply_view(r: (Option<i64>, Option<Vec<CdpFieldsText>>)) -> (
    Option<i64>,
    Option<Seq<CdpFieldsView>>,
) {
    (
        r.0,
        match r.1 {
            Some(v) => Some(v@.map_values(|f: CdpFieldsText| fields_view(f))),
            None => None,
        },
    )
}

/// What a text message on the debugging WebSocket says, read as JSON: the
/// `id` when it is an integer that fits `i64`, and, when `result.cookies` is
/// an array, the fields of each of its elements (text that is not JSON has
/// neither).
pub uninterp spec fn cdp_text_parsed(text: Seq<char>) -> (Option<i64>, Option<Seq<CdpFieldsView>>);

/// Parses one text message with `serde_json::from_str` into a
/// `serde_json::Value` (`Null` when the text is not JSON) and reads
/// `["id"].as_i64()` and the array `["result"]["cookies"]`, each element by
/// `as_str`, `as_number` (as its `Display` text) and `as_bool`.
///
/// The contract names the result `cdp_text_parsed(text@)`: it is a function
/// of the text alone. JSON itself is not written out.
#[verifier::external_body]
fn parse_cdp_text(text: &str) -> (r: (Option<i64>, Option<Vec<CdpFieldsText>>))
    ensures
        reply_view(r) == cdp_text_parsed(text@),
{
    let v: serde_json::Value = serde_json::from_str(text).unwrap_or_default();
    let cookies = v["result"]["cookies"].as_array().map(|a| a.iter().map(|c| CdpFieldsText {
        domain: c["domain"].as_str().map(String::from),
        name: c["name"].as_str().map(String::from),
        value: c["value"].as_str().map(String::from),
        path: c["path"].as_str().map(String::from),
        expires: c["expires"].as_number().map(|n| n.to_string()),
        secure: c["secure"].as_bool(),
        http_only: c["httpOnly"].as_bool(),
    }).collect());
    (v["id"].as_i64(), cookies)
}

/// The text of an optional field, or `default` when it is absent.
pub open spec fn text_or(o: Option<Seq<char>>, default: Seq<char>) -> Seq<char> {
    match o {
        Some(s) => s,
        None => default,
    }
}

/// A reported expiry in whole seconds: the whole part, toward zero and held
/// to `i64`, of its number; 0 when it is absent.
pub open spec fn expiry_seconds(o: Option<Seq<char>>) -> i64 {
    match o {
        Some(t) => match whole_part(t) {
            Some(w) => clamp_i64(w),
            None => 0,
        },
        None => 0,
    }
}

/// `c` is the cookie that the reported fields `f` give: absent texts are
/// empty, an absent path is "/", an absent expiry is 0 and absent flags are
/// false.
pub open spec fn cookie_from_fields(c: CdpCookie, f: CdpFieldsView) -> bool {
    &&& c.domain@ == text_or(f.0, Seq::empty())
    &&& c.name@ == text_or(f.1, Seq::empty())
    &&& c.value@ == text_or(f.2, Seq::empty())
    &&& c.path@ == text_or(f.3, "/"@)
    &&& c.expires == expiry_seconds(f.4)
    &&& c.secure == match f.5 {
        Some(b) => b,
        None => false,
    }
    &&& c.http_only == match f.6 {
        Some(b) => b,
        None => false,
    }
}

/// `v` holds one cookie for each of the reported cookies, in their order
/// (none when the reply held no array of them).
pub open spec fn cookies_from_reply(v: Seq<CdpCookie>, cookies: Option<Seq<CdpFieldsView>>) -> bool {
    match cookies {
        Some(fs) => v.len() == fs.len() && forall|i: int|
            0 <= i < v.len() ==> cookie_from_fields(#[trigger] v[i], fs[i]),
        None => v.len() == 0,
    }
}

fn text_or_default(o: &Option<String>, default: &str) -> (r: String)
    ensures
        r@ == text_or(opt_view(*o), default@),
{
    match o {
        Some(s) => s.clone(),
        None => String::from_str(default),
    }
}

/// The cookie that the reported fields give, with the defaults for what is
/// absent.
pub fn cdp_cookie_from_fields(f: &CdpFieldsText) -> (c: CdpCookie)
    ensures
        cookie_from_fields(c, fields_view(*f)),
{
    proof {
        reveal_strlit("");
        assert(""@ =~= Seq::<char>::empty());
    }
    let expires: i64 = match &f.expires {
        Some(t) => match whole_part_i64(&chars_of(t.as_str())) {
            Some(w) => w,
            None => 0,
        },
        None => 0,
    };
    CdpCookie {
        domain: text_or_default(&f.domain, ""),
        name: text_or_default(&f.name, ""),
        value: text_or_default(&f.value, ""),
        path: text_or_default(&f.path, "/"),
        expires,
        secure: match f.secure {
            Some(b) => b,
            None => false,
        },
        http_only: match f.http_only {
            Some(b) => b,
            None => false,
        },
    }
}

/// Waits for the reply to the cookie request, which is sent with id 1, and
/// counts the other messages: the id of the command sent after the reply is
/// 2 plus the number of messages that came before it.
pub struct CdpReplyReader {
    pub next_id: u64,
}

/// The id after `id`, stopping at the largest `u64`.
pub open spec fn next_message_id(id: u64) -> u64 {
    if id < u64::MAX {
        (id + 1) as u64
    } else {
        id
    }
}

impl CdpReplyReader {
    /// A reader before any message.
    pub fn new() -> (r: CdpReplyReader)
        ensures
            r.next_id == 2,
    {
        CdpReplyReader { next_id: 2 }
    }

    /// Counts a message that is not text.
    pub fn on_other(&mut self)
        ensures
            final(self).next_id == next_message_id(old(self).next_id),
    {
        if self.next_id < u64::MAX {
            self.next_id = self.next_id + 1;
        }
    }

    /// Reads a parsed text message: the cookies when it is the reply to the
    /// request (id 1), otherwise `None` and one more message counted.
    pub fn on_parsed(&mut self, id: Option<i64>, cookies: &Option<Vec<CdpFieldsText>>) -> (r: Option<
        Vec<CdpCookie>,
    >)
        ensures
            if id == Some(1i64) {
                final(self).next_id == old(self).next_id && (r matches Some(v) && cookies_from_reply(
                    v@,
                    reply_view((id, *cookies)).1,
                ))
            } else {
                r is None && final(self).next_id == next_message_id(old(self).next_id)
            },
    {
        if id == Some(1i64) {
            let mut v: Vec<CdpCookie> = Vec::new();
            if let Some(fs) = cookies {
                let ghost views = fs@.map_values(|f: CdpFieldsText| fields_view(f));
                let mut i: usize = 0;
                while i < fs.len()
                    invariant
                        i <= fs.len(),
                        views == fs@.map_values(|f: CdpFieldsText| fields_view(f)),
                        v@.len() == i,
                        forall|k: int| 0 <= k < i ==> cookie_from_fields(#[trigger] v@[k], views[k]),
                    decreases fs.len() - i,
                {
                    v.push(cdp_cookie_from_fields(&fs[i]));
                    i = i + 1;
                }
            }
            Some(v)
        } else {
            self.on_other();
            None
        }
    }

    /// Reads one text message: the cookies when it is the reply to the
    /// request, otherwise `None` and one more message counted.
    pub fn on_text(&mut self, text: &str) -> (r: Option<Vec<CdpCookie>>)
        ensures
            ({
                let (id, cookies) = cdp_text_parsed(text@);
                if id == Some(1i64) {
                    final(self).next_id == old(self).next_id && (r matches Some(v)
                        && cookies_from_reply(v@, cookies))
                } else {
                    r is None && final(self).next_id == next_message_id(old(self).next_id)
                }
            }),
    {
        let (id, cookies) = parse_cdp_text(text);
        self.on_parsed(id, &cookies)
    }
}

/// What the `os_crypt.encrypted_key` of a browser's "Local State" file
/// holds: the text when the file is JSON and that field is a string.
pub uninterp spec fn local_state_encrypted_key(text: Seq<char>) -> Option<Seq<char>>;

/// Parses "Local State" with `serde_json::from_str` and reads
/// `.get("os_crypt")`, `.get("encrypted_key")` and `as_str`.
///
/// The contract names the result `local_state_encrypted_key(local_state@)`:
/// it is a function of the text alone. JSON itself is not written out.
#[verifier::external_body]
fn encrypted_key_field(local_state: &str) -> (r: Option<String>)
    ensures
        opt_view(r) == local_state_encrypted_key(local_state@),
{
    let json: serde_json::Value = serde_json::from_str(local_state).ok()?;
    json.get("os_crypt")?.get("encrypted_key")?.as_str().map(String::from)
}

/// The DPAPI-protected AES key of a browser, from the text of its "Local
/// State" file (`get_aes_key` between reading the file and the DPAPI call):
/// `None` when the file holds no `os_crypt.encrypted_key` string, otherwise
/// what `encrypted_key_payload` gives for that string.
pub fn aes_key_payload(local_state: &str) -> (r: Option<Vec<u8>>)
    ensures
        match local_state_encrypted_key(local_state@) {
            Some(k) => match base64_standard_decoded(k) {
                Some(blob) => match dpapi_payload(blob) {
                    Some(p) => r matches Some(v) && v@ == p,
                    None => r is None,
                },
                None => r is None,
            },
            None => r is None,
        },
{
    match encrypted_key_field(local_state) {
        Some(k) => encrypted_key_payload(k.as_str()),
        None => None,
    }
}

} // verus!
