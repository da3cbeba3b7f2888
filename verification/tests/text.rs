use mdns::text::{cstr, cstring, nodot, parse_txt, split_svc, split_txt};

fn parts(svc: &str) -> (String, String) {
    split_svc(svc)
}

fn pair(a: &str, b: &str) -> (String, String) {
    (a.to_string(), b.to_string())
}

#[test]
fn service_name_is_split() {
    assert_eq!(parts("_rpc._tcp.local"), pair("_rpc._tcp", "local."));
    assert_eq!(parts("_rpc._tcp.example"), pair("_rpc._tcp", "example."));
}

#[test]
fn trailing_dots_are_ignored() {
    assert_eq!(parts("_rpc._tcp.local."), pair("_rpc._tcp", "local."));
    assert_eq!(parts("_rpc._tcp.local..."), pair("_rpc._tcp", "local."));
}

#[test]
fn single_label_is_in_local() {
    assert_eq!(parts("_rpc"), pair("_rpc", "local."));
    assert_eq!(parts("_rpc."), pair("_rpc", "local."));
    assert_eq!(parts(""), pair("", "local."));
    assert_eq!(parts(".."), pair("", "local."));
}

#[test]
fn leading_dot_gives_an_empty_type() {
    assert_eq!(parts(".local"), pair("", "local."));
}

#[test]
fn service_name_need_not_be_ascii() {
    assert_eq!(parts("_gr\u{fc}n._t\u{20ac}p.l\u{f6}cal"), pair("_gr\u{fc}n._t\u{20ac}p", "l\u{f6}cal."));
}

#[test]
fn parts_rejoin_to_the_service_name() {
    let (regtype, domain) = split_svc("_rpc._tcp.local");
    assert_eq!(format!("{}.{}", regtype, domain), "_rpc._tcp.local.");
}

#[test]
fn one_dot_is_stripped() {
    assert_eq!(nodot("myrobot._rpc._tcp.local."), "myrobot._rpc._tcp.local");
    assert_eq!(nodot("myrobot._rpc._tcp.local"), "myrobot._rpc._tcp.local");
    assert_eq!(nodot("a.."), "a.");
    assert_eq!(nodot("."), "");
    assert_eq!(nodot(""), "");
    assert_eq!(nodot("gr\u{fc}n\u{20ac}."), "gr\u{fc}n\u{20ac}");
}

#[test]
fn c_string_ends_in_nul() {
    assert_eq!(cstring("_rpc"), Some(vec![95, 114, 112, 99, 0]));
    assert_eq!(cstring(""), Some(vec![0]));
    assert_eq!(cstring("\u{20ac}"), Some(vec![0xe2, 0x82, 0xac, 0]));
}

#[test]
fn nul_has_no_c_string() {
    assert_eq!(cstring("a\0b"), None);
    assert_eq!(cstring("\0"), None);
    assert_eq!(cstring("a\0"), None);
}

#[test]
fn c_string_reads_back() {
    for text in ["", "myrobot", "gr\u{fc}n \u{20ac} \u{1f600}"] {
        let mut bytes = cstring(text).unwrap();
        assert_eq!(bytes.pop(), Some(0));
        assert_eq!(cstr(&bytes), text);
    }
}

#[test]
fn invalid_utf8_is_replaced() {
    assert_eq!(cstr(&[97, 0xff, 98]), "a\u{fffd}b");
    assert_eq!(cstr(&[0xe2, 0x82]), "\u{fffd}");
}

#[test]
fn txt_data_is_parsed() {
    let data = [9, 103, 114, 112, 99, 61, 116, 114, 117, 101, 1, 120];
    assert_eq!(parse_txt(&data), vec!["grpc=true".to_string(), "x".to_string()]);
}

#[test]
fn txt_data_may_be_empty() {
    assert_eq!(parse_txt(&[]), Vec::<String>::new());
    assert_eq!(parse_txt(&[0]), Vec::<String>::new());
}

#[test]
fn empty_txt_strings_are_left_out() {
    assert_eq!(split_txt(&[0, 1, 97, 0, 0, 1, 98, 0]), vec![vec![97], vec![98]]);
}

#[test]
fn cut_off_txt_string_is_dropped() {
    assert_eq!(split_txt(&[1, 97, 3, 98, 99]), vec![vec![97]]);
    assert_eq!(split_txt(&[1, 97, 3]), vec![vec![97]]);
    assert_eq!(split_txt(&[255]), Vec::<Vec<u8>>::new());
}

#[test]
fn longest_txt_string_is_kept() {
    let mut data = vec![255u8];
    data.extend(vec![122u8; 255]);
    assert_eq!(parse_txt(&data), vec!["z".repeat(255)]);
}

#[test]
fn txt_strings_are_read_lossily() {
    assert_eq!(parse_txt(&[2, 97, 0xff]), vec!["a\u{fffd}".to_string()]);
}
