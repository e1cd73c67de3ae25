use ytdlp_ui::cookies::{
    browser_cookie_files, browser_install, cdp_deadline, cdp_probe_outcome, choose_cookie_files,
    chrome_exe_candidates, cookie_value, cookies_file_name, decrypt_value, dpapi_payload_of,
    encrypted_key_payload, find_chrome_exe, locked_db_message, netscape_content,
    netscape_cookies_content, readonly_db_uri, unix_expiry_of, aes_key_payload,
    cdp_cookie_from_fields, CdpCookie, CdpFieldsText, CdpProbe, CdpReplyReader, Cookie, CookieFiles,
};
use ytdlp_ui::whole_number::whole_part_i64;

const SEALED: [u8; 44] = [
    118, 49, 48, 100, 101, 102, 103, 104, 105, 106, 107, 108, 109, 110, 111, 59, 126, 173, 21, 16,
    134, 56, 179, 74, 13, 52, 141, 180, 52, 32, 4, 184, 65, 42, 105, 96, 202, 52, 4, 73, 62, 92, 3,
    188,
];

fn key() -> Vec<u8> {
    (0u8..32).collect()
}

#[test]
fn expiry_converts_from_1601_microseconds() {
    assert_eq!(unix_expiry_of(13_300_000_000_000_000), 1_655_526_400);
    assert_eq!(unix_expiry_of(13_300_000_000_999_999), 1_655_526_400);
    assert_eq!(unix_expiry_of(0), 0);
    assert_eq!(unix_expiry_of(-5), 0);
    assert_eq!(unix_expiry_of(1), -11_644_473_600);
}

#[test]
fn netscape_file_from_database_cookies() {
    let cookies = vec![
        Cookie {
            domain: "example.com".to_string(),
            name: "sid".to_string(),
            value: "abc".to_string(),
            path: "/".to_string(),
            expires: 13_300_000_000_000_000,
            secure: true,
        },
        Cookie {
            domain: ".youtube.com".to_string(),
            name: "PREF".to_string(),
            value: "f1=1".to_string(),
            path: "/watch".to_string(),
            expires: 0,
            secure: false,
        },
    ];
    assert_eq!(
        netscape_content(&cookies),
        "# Netscape HTTP Cookie File\n# This file is generated by yt-dlp-ui\n#\n\n\
         .example.com\tTRUE\t/\tTRUE\t1655526400\tsid\tabc\n\
         .youtube.com\tTRUE\t/watch\tFALSE\t0\tPREF\tf1=1\n"
    );
    assert_eq!(
        netscape_content(&vec![]),
        "# Netscape HTTP Cookie File\n# This file is generated by yt-dlp-ui\n#\n\n"
    );
}

#[test]
fn netscape_file_from_protocol_cookies() {
    let cookies = vec![CdpCookie {
        domain: "a.org".to_string(),
        name: "n".to_string(),
        value: "v".to_string(),
        path: "/".to_string(),
        expires: -7,
        secure: false,
        http_only: true,
    }, CdpCookie {
        domain: ".b.org".to_string(),
        name: "m".to_string(),
        value: "w".to_string(),
        path: "/x".to_string(),
        expires: 1_700_000_000,
        secure: true,
        http_only: false,
    }];
    assert_eq!(
        netscape_cookies_content(&cookies),
        "# Netscape HTTP Cookie File\n# This file was generated by yt-dlp-ui\n#\n\n\
         .a.org\tTRUE\t/\tFALSE\t0\tn\tv\n\
         .b.org\tTRUE\t/x\tTRUE\t1700000000\tm\tw\n"
    );
}

fn no_fields() -> CdpFieldsText {
    CdpFieldsText {
        domain: None,
        name: None,
        value: None,
        path: None,
        expires: None,
        secure: None,
        http_only: None,
    }
}

#[test]
fn protocol_cookie_defaults() {
    let c = cdp_cookie_from_fields(&no_fields());
    assert_eq!(c.domain, "");
    assert_eq!(c.name, "");
    assert_eq!(c.value, "");
    assert_eq!(c.path, "/");
    assert_eq!(c.expires, 0);
    assert!(!c.secure);
    assert!(!c.http_only);
    let f = CdpFieldsText {
        domain: Some(".x.com".to_string()),
        name: Some("sid".to_string()),
        value: Some("42".to_string()),
        path: Some("/a".to_string()),
        expires: Some("1700000000.75".to_string()),
        secure: Some(true),
        http_only: Some(true),
    };
    let c = cdp_cookie_from_fields(&f);
    assert_eq!(c.domain, ".x.com");
    assert_eq!(c.name, "sid");
    assert_eq!(c.value, "42");
    assert_eq!(c.path, "/a");
    assert_eq!(c.expires, 1_700_000_000);
    assert!(c.secure);
    assert!(c.http_only);
}

#[test]
fn protocol_reply_is_picked_by_id() {
    let mut reader = CdpReplyReader::new();
    assert_eq!(reader.next_id, 2);
    reader.on_other();
    assert!(reader.on_text("{\"id\":7,\"result\":{\"cookies\":[{}]}}").is_none());
    assert!(reader.on_text("not json").is_none());
    assert!(reader.on_text("{\"method\":\"Target.attachedToTarget\"}").is_none());
    assert_eq!(reader.next_id, 6);
    let reply = "{\"id\":1,\"result\":{\"cookies\":[\
        {\"domain\":\".a.org\",\"name\":\"n\",\"value\":\"v\",\"path\":\"/p\",\
         \"expires\":1700000000.5,\"secure\":true,\"httpOnly\":false},\
        {\"name\":\"s\",\"expires\":-1,\"secure\":\"yes\"}]}}";
    let got = reader.on_text(reply).unwrap();
    assert_eq!(got.len(), 2);
    assert_eq!(got[0].domain, ".a.org");
    assert_eq!(got[0].name, "n");
    assert_eq!(got[0].value, "v");
    assert_eq!(got[0].path, "/p");
    assert_eq!(got[0].expires, 1_700_000_000);
    assert!(got[0].secure);
    assert!(!got[0].http_only);
    assert_eq!(got[1].name, "s");
    assert_eq!(got[1].domain, "");
    assert_eq!(got[1].path, "/");
    assert_eq!(got[1].expires, -1);
    assert!(!got[1].secure);
    assert_eq!(reader.next_id, 6);
    let mut other = CdpReplyReader::new();
    let none = other.on_text("{\"id\":1,\"result\":{}}").unwrap();
    assert!(none.is_empty());
    assert_eq!(other.next_id, 2);
    let content = netscape_cookies_content(&got);
    assert!(content.ends_with(".a.org\tTRUE\t/p\tTRUE\t1700000000\tn\tv\n.\tTRUE\t/\tFALSE\t0\ts\t\n"));
}

#[test]
fn expiry_number_text_to_whole_seconds() {
    let w = |t: &str| whole_part_i64(&t.chars().collect());
    assert_eq!(w("1700000000.999"), Some(1_700_000_000));
    assert_eq!(w("-1"), Some(-1));
    assert_eq!(w("-0.5"), Some(0));
    assert_eq!(w("0"), Some(0));
    assert_eq!(w("1e3"), Some(1000));
    assert_eq!(w("1.5E+2"), Some(150));
    assert_eq!(w("1.7e9"), Some(1_700_000_000));
    assert_eq!(w("123e-2"), Some(1));
    assert_eq!(w("5e-400"), Some(0));
    assert_eq!(w("1e30"), Some(i64::MAX));
    assert_eq!(w("-1e30"), Some(i64::MIN));
    assert_eq!(w("9223372036854775807"), Some(i64::MAX));
    assert_eq!(w("-9223372036854775808"), Some(i64::MIN));
    assert_eq!(w("-9223372036854775809"), Some(i64::MIN));
    assert_eq!(w("1e99999999999999999999999999999999"), Some(i64::MAX));
    assert_eq!(w("0e99999999999999999999999999999999"), Some(0));
    assert_eq!(w(""), None);
    assert_eq!(w("-"), None);
    assert_eq!(w("1."), None);
    assert_eq!(w(".5"), None);
    assert_eq!(w("1e"), None);
    assert_eq!(w("1x"), None);
}

#[test]
fn local_state_key_is_read_from_json() {
    assert_eq!(
        aes_key_payload("{\"os_crypt\":{\"encrypted_key\":\"RFBBUElrZXk=\"}}"),
        Some(b"key".to_vec())
    );
    assert_eq!(aes_key_payload("{\"os_crypt\":{\"encrypted_key\":\"WFBBUElrZXk=\"}}"), None);
    assert_eq!(aes_key_payload("{\"os_crypt\":{\"encrypted_key\":5}}"), None);
    assert_eq!(aes_key_payload("{\"os_crypt\":{}}"), None);
    assert_eq!(aes_key_payload("{}"), None);
    assert_eq!(aes_key_payload("not json"), None);
}

#[test]
fn dpapi_key_blob_is_checked_and_stripped() {
    assert_eq!(dpapi_payload_of(&b"DPAPIkey".to_vec()), Some(b"key".to_vec()));
    assert_eq!(dpapi_payload_of(&b"DPAPI".to_vec()), None);
    assert_eq!(dpapi_payload_of(&b"XPAPIkey".to_vec()), None);
    assert_eq!(encrypted_key_payload("RFBBUElrZXk="), Some(b"key".to_vec()));
    assert_eq!(encrypted_key_payload("not base64!"), None);
}

#[test]
fn decrypts_aes_gcm_cookie_values() {
    assert_eq!(decrypt_value(&SEALED, &key()), Some("session-token".to_string()));
    let mut v11 = SEALED;
    v11[2] = b'1';
    assert_eq!(decrypt_value(&v11, &key()), Some("session-token".to_string()));
    let mut tampered = SEALED;
    tampered[20] ^= 1;
    assert_eq!(decrypt_value(&tampered, &key()), None);
    let mut bad_prefix = SEALED;
    bad_prefix[0] = b'w';
    assert_eq!(decrypt_value(&bad_prefix, &key()), None);
    assert_eq!(decrypt_value(&SEALED[..30], &key()), None);
    assert_eq!(decrypt_value(&SEALED, &key()[..31]), None);
}

#[test]
fn cookie_value_rules() {
    let k = Some(key());
    assert_eq!(cookie_value("plain".to_string(), None, &k), "plain");
    assert_eq!(cookie_value("plain".to_string(), Some(vec![]), &k), "plain");
    assert_eq!(cookie_value("plain".to_string(), Some(SEALED.to_vec()), &k), "session-token");
    assert_eq!(cookie_value("plain".to_string(), Some(SEALED.to_vec()), &None), "");
    assert_eq!(cookie_value("plain".to_string(), Some(vec![1, 2, 3]), &k), "");
}

#[test]
fn browser_install_layouts() {
    let c = browser_install("Chrome", "L", "R").unwrap();
    assert_eq!(c.base, "L");
    assert_eq!(c.vendor, "Google");
    assert_eq!(c.product, "Chrome");
    assert_eq!(c.install_dir, "Google\\Chrome");
    assert_eq!(c.user_data_dir, "L\\Google\\Chrome\\User Data");
    let o = browser_install("OPERA", "L", "R").unwrap();
    assert_eq!(o.base, "R");
    assert_eq!(o.user_data_dir, "R\\Opera Software\\Opera Stable");
    let v = browser_install("vivaldi", "L", "R").unwrap();
    assert_eq!(v.product, "Application");
    assert_eq!(v.install_dir, "Vivaldi");
    let ch = browser_install("chromium", "L", "R").unwrap();
    assert_eq!(
        chrome_exe_candidates(&ch.base, &ch.install_dir, &ch.product)[0],
        "L\\Chromium\\Application\\application.exe"
    );
    assert_eq!(v.user_data_dir, "L\\Vivaldi\\User Data");
    assert_eq!(browser_install("Firefox", "L", "R").err(), Some("Firefox 请使用 yt-dlp 方式提取".to_string()));
    assert_eq!(browser_install("Safari", "L", "R").err(), Some("不支持的浏览器: Safari".to_string()));
}

#[test]
fn chrome_exe_search() {
    let c = chrome_exe_candidates("L", "Google\\Chrome", "Chrome");
    assert_eq!(
        c,
        vec![
            "L\\Google\\Chrome\\Application\\chrome.exe".to_string(),
            "C:\\Program Files\\Google\\Chrome\\Application\\chrome.exe".to_string(),
            "C:\\Program Files (x86)\\Google\\Chrome\\Application\\chrome.exe".to_string(),
        ]
    );
    assert_eq!(find_chrome_exe(&c, &vec![false, true, true], "Chrome"), Ok(c[1].clone()));
    assert_eq!(
        find_chrome_exe(&c, &vec![false, true, false], "Chrome"),
        Ok("C:\\Program Files\\Google\\Chrome\\Application\\chrome.exe".to_string())
    );
    assert_eq!(
        find_chrome_exe(&c, &vec![false, false, false], "Chrome"),
        Err("找不到 Chrome 浏览器可执行文件".to_string())
    );
}

#[test]
fn browser_cookie_file_layouts_and_choice() {
    match browser_cookie_files("Edge", "L", "R").unwrap() {
        CookieFiles::Probe { network, legacy, local_state } => {
            assert_eq!(network, "L\\Microsoft\\Edge\\User Data\\Default\\Network\\Cookies");
            assert_eq!(legacy, "L\\Microsoft\\Edge\\User Data\\Default\\Cookies");
            assert_eq!(local_state, "L\\Microsoft\\Edge\\User Data\\Local State");
        }
        CookieFiles::Known { .. } => panic!("edge is probed"),
    }
    match browser_cookie_files("chromium", "L", "R").unwrap() {
        CookieFiles::Probe { network, .. } => {
            assert_eq!(network, "L\\Chromium\\User Data\\Default\\Network\\Cookies")
        }
        CookieFiles::Known { .. } => panic!("chromium is probed"),
    }
    let opera = browser_cookie_files("opera", "L", "R").unwrap();
    assert_eq!(
        choose_cookie_files(opera, "opera", false, false, false),
        Ok((
            "R\\Opera Software\\Opera Stable\\Network\\Cookies".to_string(),
            "R\\Opera Software\\Opera Stable\\Local State".to_string()
        ))
    );
    assert_eq!(
        browser_cookie_files("firefox", "L", "R").err(),
        Some("Firefox 暂不支持自动提取，请手动导出 cookies。".to_string())
    );
    let probe = |n: &str, l: &str, s: &str| CookieFiles::Probe {
        network: n.to_string(),
        legacy: l.to_string(),
        local_state: s.to_string(),
    };
    assert_eq!(
        choose_cookie_files(probe("n", "l", "s"), "Chrome", true, true, true),
        Ok(("n".to_string(), "s".to_string()))
    );
    assert_eq!(
        choose_cookie_files(probe("n", "l", "s"), "Chrome", false, true, true),
        Ok(("l".to_string(), "s".to_string()))
    );
    assert_eq!(
        choose_cookie_files(probe("n", "l", "s"), "Chrome", false, false, true),
        Err("找不到 Chrome 的 Cookie 数据库文件".to_string())
    );
    assert_eq!(
        choose_cookie_files(probe("n", "l", "s"), "Chrome", true, false, false),
        Err("找不到 Chrome 的 Local State 文件".to_string())
    );
}

#[test]
fn cookie_file_names_and_uris() {
    assert_eq!(cookies_file_name("edge"), "cookies-edge.txt");
    assert_eq!(
        readonly_db_uri("C:\\Users\\me\\Cookies"),
        "file:C:/Users/me/Cookies?mode=ro&immutable=1"
    );
    assert_eq!(
        locked_db_message("Chrome", "busy"),
        "Chrome Cookie 数据库被锁定且无法直接读取。请关闭所有浏览器窗口和后台进程后重试。\n\nbusy"
    );
}

#[test]
fn cdp_wait_decisions() {
    assert_eq!(cdp_probe_outcome(CdpProbe::NoAnswer), None);
    assert_eq!(cdp_probe_outcome(CdpProbe::NotReady), None);
    assert_eq!(
        cdp_probe_outcome(CdpProbe::Answer(Some("ws://x".to_string()))),
        Some(Ok("ws://x".to_string()))
    );
    assert_eq!(
        cdp_probe_outcome(CdpProbe::Answer(None)),
        Some(Err("未找到 WebSocket URL".to_string()))
    );
    assert_eq!(
        cdp_probe_outcome(CdpProbe::BadJson("eof".to_string())),
        Some(Err("解析失败: eof".to_string()))
    );
    assert_eq!(cdp_deadline(15000, 15000), None);
    assert_eq!(cdp_deadline(15001, 15000), Some("CDP 调试服务启动超时".to_string()));
}
