use coin_portfolio::alisms::{query_string, sign, sms_params, sms_url, SmsBody};
use coin_portfolio::error::E;
use coin_portfolio::hmac_sha1::{hmac_sha1, SHA1_DIGEST_BYTES, SHA1_KEY_BYTES};
use coin_portfolio::utils::{
    decimal, decrypt, encrypt, push_digits, query_quote, rfc3986_encode, strip_padding,
};

fn hex(bytes: &[u8]) -> String {
    let mut out = String::new();
    for b in bytes {
        out.push_str(&format!("{:02x}", b));
    }
    out
}

fn body(out_id: &str) -> SmsBody {
    SmsBody {
        key_id: "testId".to_string(),
        key_secret: "testSecret".to_string(),
        sign_name: "yield助手".to_string(),
        template_code: "SMS_123673246".to_string(),
        phone_numbers: "15300000001".to_string(),
        template_param: "{\"code\":\"1234\"}".to_string(),
        out_id: out_id.to_string(),
    }
}

#[test]
fn decimal_text_of_numbers() {
    assert_eq!(decimal(0), "0");
    assert_eq!(decimal(7), "7");
    assert_eq!(decimal(10), "10");
    assert_eq!(decimal(-45), "-45");
    assert_eq!(decimal(1500000000000), "1500000000000");
    assert_eq!(decimal(i128::MAX), i128::MAX.to_string());
    assert_eq!(decimal(i128::MIN), i128::MIN.to_string());
    let mut text = "n=".to_string();
    push_digits(&mut text, 9070);
    assert_eq!(text, "n=9070");
}

#[test]
fn unreserved_bytes_stay() {
    let plain = "ABCXYZabcxyz0189-._~";
    assert_eq!(query_quote(plain), plain);
    assert_eq!(rfc3986_encode(plain, true), plain);
    assert_eq!(query_quote(""), "");
}

#[test]
fn delimiters_stay_only_in_a_full_url() {
    let delimiters = ":/?#[]@!$&\"()*+,;=";
    assert_eq!(rfc3986_encode(delimiters, true), delimiters);
    assert_eq!(
        rfc3986_encode(delimiters, false),
        "%3A%2F%3F%23%5B%5D%40%21%24%26%22%28%29%2A%2B%2C%3B%3D"
    );
    assert_eq!(rfc3986_encode("http://a.b/c d?e=f'g", true), "http://a.b/c%20d?e=f%27g");
}

#[test]
fn other_bytes_are_escaped_in_upper_case() {
    assert_eq!(query_quote(" "), "%20");
    assert_eq!(query_quote("%"), "%25");
    assert_eq!(query_quote("'"), "%27");
    assert_eq!(query_quote("\u{0}\u{7f}"), "%00%7F");
    assert_eq!(query_quote("助手"), "%E5%8A%A9%E6%89%8B");
    assert_eq!(query_quote("a=1&b=2"), "a%3D1%26b%3D2");
}

#[test]
fn hmac_of_known_messages() {
    assert_eq!((SHA1_DIGEST_BYTES, SHA1_KEY_BYTES), (20, 64));
    assert_eq!(
        hex(&hmac_sha1(b"key", b"The quick brown fox jumps over the lazy dog")),
        "de7c9b85b8b78aa6bc8a7a36f70a90701c9db4d9"
    );
    // a key that is longer than a block is hashed first
    assert_eq!(
        hex(&hmac_sha1(&[0xaa; 80], b"Test Using Larger Than Block-Size Key - Hash Key First")),
        "aa4ae5e15272d00e95705637ce8a3b55ed402112"
    );
    assert_eq!(hex(&hmac_sha1(b"", b"")), "fbdb1d1b18aa6c08324b7d64b71fb76370690e1d");
}

#[test]
fn signature_of_a_query_string() {
    assert_eq!(sign("secret&", "a=1&b=2"), "h/w28UFOfGIUrSq9ZRNDkgaj5IM=");
}

#[test]
fn parameters_come_in_order_of_their_names() {
    let sms = body("");
    let params = sms_params(&sms, "2017-07-12T02:42:19Z", "nonce");
    let names: Vec<&str> = params.iter().map(|p| p.0).collect();
    let mut sorted = names.clone();
    sorted.sort();
    assert_eq!(names, sorted);
    assert_eq!(names.len(), 13);
    assert!(!names.contains(&"OutId"));

    let sms = body("abc");
    let params = sms_params(&sms, "2017-07-12T02:42:19Z", "nonce");
    let names: Vec<&str> = params.iter().map(|p| p.0).collect();
    let mut sorted = names.clone();
    sorted.sort();
    assert_eq!(names, sorted);
    assert_eq!(params[3], ("OutId", "abc"));
    assert_eq!(params.len(), 14);
}

#[test]
fn query_string_joins_the_parameters() {
    assert_eq!(query_string(&Vec::new()), "");
    assert_eq!(query_string(&vec![("a b", "c&d")]), "a%20b=c%26d");
    assert_eq!(query_string(&vec![("a", "1"), ("b", ""), ("c", "/")]), "a=1&b=&c=%2F");
}

#[test]
fn signed_address_of_a_message() {
    let url = sms_url(&body(""), "2017-07-12T02:42:19Z", "45e25e9b-0a6f-4070-8c85-2956eda1b466");
    assert_eq!(
        url,
        "http://dysmsapi.aliyuncs.com/?Signature=cChGAeQ0geLplhndENktas0yqrc%3D&AccessKeyId=testId&Action=SendSms&Format=JSON&PhoneNumbers=15300000001&RegionId=cn-hangzhou&SignName=yield%E5%8A%A9%E6%89%8B&SignatureMethod=HMAC-SHA1&SignatureNonce=45e25e9b-0a6f-4070-8c85-2956eda1b466&SignatureVersion=1.0&TemplateCode=SMS_123673246&TemplateParam=%7B%22code%22%3A%221234%22%7D&Timestamp=2017-07-12T02%3A42%3A19Z&Version=2017-05-25"
    );
}

#[test]
fn cipher_round_trip() {
    let key = b"c7742caff377ea4906656409677bc1fd";
    let data = b"5f0c1d3e-aaaa-bbbb-cccc-0123456789ab";
    let enc = encrypt(data, key).unwrap();
    assert_eq!(
        hex(&enc),
        "cce84db491980247896da4ba2c856d406e0c11dc48c5ec93ce3cb7cf414762342ca87cf4a49da70f6141cfa8b9e71c3b"
    );
    assert_eq!(decrypt(&enc, key).unwrap(), data.to_vec());
    assert_eq!(decrypt(&enc[..17], key), None);
    assert_eq!(decrypt(&[], key), None);
    let long = vec![7u8; 10000];
    let enc = encrypt(&long, key).unwrap();
    assert_eq!(enc.len(), 10000 + 16);
    assert_eq!(decrypt(&enc, key).unwrap(), long);
}

#[test]
fn errors_have_numbers_and_messages() {
    assert_eq!(E::SmsSendLimit.spec(), (1, "过去24小时发送的短信已超过10条，请稍后再试。".to_string()));
    assert_eq!(E::SmsSendInterval(120).spec(), (2, "两次短信发送时间需间隔120秒。".to_string()));
    assert_eq!(E::SmsSendInterval(-5).spec().1, "两次短信发送时间需间隔-5秒。");
    assert_eq!(E::SmsVerifyNotFound.spec(), (3, "无验证短信。".to_string()));
    assert_eq!(E::SmsVerified.spec(), (4, "该验证码已使用。".to_string()));
    assert_eq!(E::SmsVerifyLimit.spec(), (5, "验证码尝试已超过10次。".to_string()));
    assert_eq!(E::SmsVerifyExpired.spec(), (6, "验证码已过期。".to_string()));
    assert_eq!(E::SmsVerifyInvalid.spec(), (7, "验证码错误。".to_string()));
    assert_eq!(E::SmsMobileInvalid.spec(), (8, "手机号格式错误。".to_string()));
    assert_eq!(E::AccessTokenNotFound.spec(), (9, "没有令牌。".to_string()));
    assert_eq!(E::AccessTokenInvalid.spec(), (10, "无效的令牌。".to_string()));
    assert_eq!(E::SessionExpired.spec(), (11, "会话已过期。".to_string()));
    assert_eq!(E::UserNotFound.spec(), (12, "该用户不存在。".to_string()));
    assert_eq!(E::SessionIsOwned.spec(), (13, "会话已有所属。".to_string()));
    assert_eq!(E::CoinNotFound.spec(), (14, "加密币不存在。".to_string()));
    assert_eq!(E::Unknown.spec(), (999, "未知错误。".to_string()));
}

#[test]
fn padding_is_taken_off_the_end() {
    assert_eq!(strip_padding(vec![7, 8, 2, 2]), Some(vec![7, 8]));
    assert_eq!(strip_padding(vec![7, 8, 9, 1]), Some(vec![7, 8, 9]));
    assert_eq!(strip_padding(vec![16; 16]), Some(Vec::new()));
    assert_eq!(strip_padding(vec![3, 3, 3]), Some(Vec::new()));
    assert_eq!(strip_padding(Vec::new()), None);
    assert_eq!(strip_padding(vec![7, 8, 9, 0]), None);
    assert_eq!(strip_padding(vec![7, 8, 3, 2]), None);
    assert_eq!(strip_padding(vec![4, 4, 4]), None);
    assert_eq!(strip_padding(vec![17; 17]), None);
    assert_eq!(strip_padding(vec![32; 16]), None);
    assert_eq!(strip_padding(vec![255; 16]), None);
}

#[test]
fn a_block_of_equal_bytes_is_no_padding() {
    let key = b"c7742caff377ea4906656409677bc1fd";
    // the first block of these ciphertexts decrypts to sixteen bytes of one value
    for value in [0u8, 17, 32, 200, 255] {
        let enc = encrypt(&[value; 16], key).unwrap();
        assert_eq!(decrypt(&enc[..16], key), None);
        assert_eq!(decrypt(&enc, key), Some(vec![value; 16]));
    }
    // sixteen bytes of padding stand for no data at all
    let enc = encrypt(&[16; 16], key).unwrap();
    assert_eq!(decrypt(&enc[..16], key), Some(Vec::new()));
}
