//! Requests to the text-message gateway: their parameters, their canonical
//! query string and its signature.

use crate::hmac_sha1::{hmac_sha1, hmac_sha1_of};
use crate::utils::{encoded, query_quote};
use rustc_serialize::base64::{ToBase64, STANDARD};
use vstd::prelude::*;
use vstd::string::{StringExecFns, StringSliceAdditionalSpecFns};
use vstd::utf8::encode_utf8;

verus! {

/// What the gateway needs to send one message.
pub struct SmsBody {
    pub key_id: String,
    pub key_secret: String,
    pub sign_name: String,
    pub template_code: String,
    pub phone_numbers: String,
    pub template_param: String,
    pub out_id: String,
}

/// The base64 text of `data` in the standard alphabet with padding, as the
/// `rustc_serialize` crate writes it.
pub uninterp spec fn base64_standard_of(data: Seq<u8>) -> Seq<char>;

/// `to_base64` of the `rustc_serialize` crate with its `STANDARD`
/// configuration: the base64 text of the bytes, without line breaks.
#[verifier::external_body]
fn base64_standard(data: &[u8]) -> (text: String)
    ensures
        text@ == base64_standard_of(data@),
{
    data.to_base64(STANDARD)
}

/// A text percent-encoded as a query component.
pub open spec fn quoted(text: Seq<char>) -> Seq<char> {
    encoded(encode_utf8(text), false)
}

/// The text that is signed for a query string.
pub open spec fn string_to_sign(query: Seq<char>) -> Seq<char> {
    "GET&"@ + quoted("/"@) + "&"@ + quoted(query)
}

/// The signature of a query string under a secret: the base64 text of the
/// HMAC-SHA1 of the text to sign.
pub open spec fn signature_of(secret: Seq<char>, query: Seq<char>) -> Seq<char> {
    base64_standard_of(hmac_sha1_of(encode_utf8(secret), encode_utf8(string_to_sign(query))))
}

/// Signs a query string.
pub fn sign(secret: &str, query_string: &str) -> (signature: String)
    ensures
        signature@ == signature_of(secret@, query_string@),
{
    let mut text = "GET&".to_owned();
    text.append(query_quote("/").as_str());
    text.append("&");
    text.append(query_quote(query_string).as_str());
    let hash = hmac_sha1(secret.as_bytes(), text.as_str().as_bytes());
    base64_standard(hash.as_slice())
}

/// One parameter of a query string: name, `=`, value, both percent-encoded.
pub open spec fn pair_of(pair: (Seq<char>, Seq<char>)) -> Seq<char> {
    quoted(pair.0) + "="@ + quoted(pair.1)
}

/// The query string of a list of parameters: the parameters joined by `&`.
pub open spec fn query_of(params: Seq<(Seq<char>, Seq<char>)>) -> Seq<char>
    decreases params.len(),
{
    if params.len() == 0 {
        Seq::empty()
    } else if params.len() == 1 {
        pair_of(params[0])
    } else {
        query_of(params.drop_last()) + "&"@ + pair_of(params.last())
    }
}

/// Names and values of a list of parameters.
pub open spec fn texts_of(params: Seq<(&str, &str)>) -> Seq<(Seq<char>, Seq<char>)> {
    Seq::new(params.len(), |i: int| (params[i].0@, params[i].1@))
}

/// Writes the query string of a list of parameters.
pub fn query_string(params: &Vec<(&str, &str)>) -> (query: String)
    ensures
        query@ == query_of(texts_of(params@)),
{
    let mut query = String::new();
    let mut i: usize = 0;
    while i < params.len()
        invariant
            0 <= i <= params@.len(),
            query@ == query_of(texts_of(params@).take(i as int)),
        decreases params@.len() - i,
    {
        proof {
            assert(texts_of(params@).take(i + 1).drop_last() == texts_of(params@).take(i as int));
        }
        if i > 0 {
            query.append("&");
        }
        query.append(query_quote(params[i].0).as_str());
        query.append("=");
        query.append(query_quote(params[i].1).as_str());
        proof {
            assert(query@ =~= query_of(texts_of(params@).take(i + 1)));
        }
        i += 1;
    }
    proof {
        assert(texts_of(params@).take(i as int) == texts_of(params@));
    }
    query
}

/// The parameters of a request to send `sms` at the time `timestamp` with
/// the one-time value `nonce`, in ascending order of their names. `OutId` is
/// left out where the message has none.
pub open spec fn params_of(sms: SmsBody, timestamp: Seq<char>, nonce: Seq<char>) -> Seq<
    (Seq<char>, Seq<char>),
> {
    let head = seq![
        ("AccessKeyId"@, sms.key_id@),
        ("Action"@, "SendSms"@),
        ("Format"@, "JSON"@),
    ];
    let tail = seq![
        ("PhoneNumbers"@, sms.phone_numbers@),
        ("RegionId"@, "cn-hangzhou"@),
        ("SignName"@, sms.sign_name@),
        ("SignatureMethod"@, "HMAC-SHA1"@),
        ("SignatureNonce"@, nonce),
        ("SignatureVersion"@, "1.0"@),
        ("TemplateCode"@, sms.template_code@),
        ("TemplateParam"@, sms.template_param@),
        ("Timestamp"@, timestamp),
        ("Version"@, "2017-05-25"@),
    ];
    if sms.out_id@.len() == 0 {
        head + tail
    } else {
        head.push(("OutId"@, sms.out_id@)) + tail
    }
}

/// The texts `a` and `b` agree before the place `i`, and there `a` ends or
/// has the lesser character.
pub open spec fn parts_at(a: Seq<char>, b: Seq<char>, i: int) -> bool {
    &&& 0 <= i <= a.len()
    &&& i < b.len()
    &&& forall|j: int| 0 <= j < i ==> a[j] == b[j]
    &&& (i == a.len() || (a[i] as u32) < (b[i] as u32))
}

/// `a` stands before `b` in the order of texts, which is the order in which
/// a sorted map of the standard library holds its text keys.
pub open spec fn text_before(a: Seq<char>, b: Seq<char>) -> bool {
    exists|i: int| parts_at(a, b, i)
}

/// Each name of the list stands before the names after it.
pub open spec fn names_ascend(params: Seq<(Seq<char>, Seq<char>)>) -> bool {
    forall|i: int, j: int|
        0 <= i < j < params.len() ==> text_before(
            (#[trigger] params[i]).0,
            (#[trigger] params[j]).0,
        )
}

/// The order of texts is transitive.
pub proof fn lemma_text_before_transitive(a: Seq<char>, b: Seq<char>, c: Seq<char>)
    requires
        text_before(a, b),
        text_before(b, c),
    ensures
        text_before(a, c),
{
    let i1 = choose|i: int| parts_at(a, b, i);
    let i2 = choose|i: int| parts_at(b, c, i);
    if i1 <= i2 {
        assert(parts_at(a, c, i1));
    } else {
        assert(parts_at(a, c, i2));
    }
}

/// A list in which each name stands before the next one has its names in ascending order.
proof fn lemma_chain_ascends(params: Seq<(Seq<char>, Seq<char>)>, i: int, j: int)
    requires
        forall|k: int|
            0 <= k < params.len() - 1 ==> text_before(
                (#[trigger] params[k]).0,
                params[k + 1].0,
            ),
        0 <= i < j < params.len(),
    ensures
        text_before(params[i].0, params[j].0),
    decreases j - i,
{
    if i + 1 < j {
        lemma_chain_ascends(params, i, j - 1);
        assert(text_before(params[j - 1].0, params[j - 1 + 1].0));
        lemma_text_before_transitive(params[i].0, params[j - 1].0, params[j].0);
    } else {
        assert(text_before(params[i].0, params[i + 1].0));
    }
}

/// The parameters of a request stand in the order of their names, as a
/// sorted map would hold them.
pub proof fn lemma_params_ascend(sms: SmsBody, timestamp: Seq<char>, nonce: Seq<char>)
    ensures
        names_ascend(params_of(sms, timestamp, nonce)),
{
    reveal_strlit("AccessKeyId");
    reveal_strlit("Action");
    reveal_strlit("Format");
    reveal_strlit("OutId");
    reveal_strlit("PhoneNumbers");
    reveal_strlit("RegionId");
    reveal_strlit("SignName");
    reveal_strlit("SignatureMethod");
    reveal_strlit("SignatureNonce");
    reveal_strlit("SignatureVersion");
    reveal_strlit("TemplateCode");
    reveal_strlit("TemplateParam");
    reveal_strlit("Timestamp");
    reveal_strlit("Version");
    assert(parts_at("AccessKeyId"@, "Action"@, 2));
    assert(parts_at("Action"@, "Format"@, 0));
    assert(parts_at("Format"@, "OutId"@, 0));
    assert(parts_at("Format"@, "PhoneNumbers"@, 0));
    assert(parts_at("OutId"@, "PhoneNumbers"@, 0));
    assert(parts_at("PhoneNumbers"@, "RegionId"@, 0));
    assert(parts_at("RegionId"@, "SignName"@, 0));
    assert(parts_at("SignName"@, "SignatureMethod"@, 4));
    assert(parts_at("SignatureMethod"@, "SignatureNonce"@, 9));
    assert(parts_at("SignatureNonce"@, "SignatureVersion"@, 9));
    assert(parts_at("SignatureVersion"@, "TemplateCode"@, 0));
    assert(parts_at("TemplateCode"@, "TemplateParam"@, 8));
    assert(parts_at("TemplateParam"@, "Timestamp"@, 1));
    assert(parts_at("Timestamp"@, "Version"@, 0));
    let params = params_of(sms, timestamp, nonce);
    assert forall|k: int| 0 <= k < params.len() - 1 implies text_before(
        (#[trigger] params[k]).0,
        params[k + 1].0,
    ) by {}
    assert forall|i: int, j: int| 0 <= i < j < params.len() implies text_before(
        (#[trigger] params[i]).0,
        (#[trigger] params[j]).0,
    ) by {
        lemma_chain_ascends(params, i, j);
    }
}

/// Lists the parameters of a request to send `sms`.
pub fn sms_params<'a>(sms: &'a SmsBody, timestamp: &'a str, nonce: &'a str) -> (params: Vec<
    (&'a str, &'a str),
>)
    ensures
        texts_of(params@) == params_of(*sms, timestamp@, nonce@),
{
    let mut params: Vec<(&'a str, &'a str)> = Vec::new();
    params.push(("AccessKeyId", sms.key_id.as_str()));
    params.push(("Action", "SendSms"));
    params.push(("Format", "JSON"));
    if !sms.out_id.as_str().is_empty() {
        params.push(("OutId", sms.out_id.as_str()));
    }
    params.push(("PhoneNumbers", sms.phone_numbers.as_str()));
    params.push(("RegionId", "cn-hangzhou"));
    params.push(("SignName", sms.sign_name.as_str()));
    params.push(("SignatureMethod", "HMAC-SHA1"));
    params.push(("SignatureNonce", nonce));
    params.push(("SignatureVersion", "1.0"));
    params.push(("TemplateCode", sms.template_code.as_str()));
    params.push(("TemplateParam", sms.template_param.as_str()));
    params.push(("Timestamp", timestamp));
    params.push(("Version", "2017-05-25"));
    proof {
        assert(texts_of(params@) =~= params_of(*sms, timestamp@, nonce@));
    }
    params
}

/// The address that asks the gateway to send `sms`: the signature of the
/// canonical query string under the key secret followed by `&`, then the
/// query string itself.
pub open spec fn sms_url_of(sms: SmsBody, timestamp: Seq<char>, nonce: Seq<char>) -> Seq<char> {
    let query = query_of(params_of(sms, timestamp, nonce));
    "http://dysmsapi.aliyuncs.com/?Signature="@ + quoted(
        signature_of(sms.key_secret@ + "&"@, query),
    ) + "&"@ + query
}

/// Builds the signed address that asks the gateway to send `sms`.
/// `timestamp` is the time of the request in UTC, `nonce` a value that no
/// other request carries.
pub fn sms_url(sms: &SmsBody, timestamp: &str, nonce: &str) -> (url: String)
    ensures
        url@ == sms_url_of(*sms, timestamp@, nonce@),
{
    let params = sms_params(sms, timestamp, nonce);
    let query = query_string(&params);
    let mut secret = sms.key_secret.clone();
    secret.append("&");
    let signature = sign(secret.as_str(), query.as_str());
    let mut url = "http://dysmsapi.aliyuncs.com/?Signature=".to_owned();
    url.append(query_quote(signature.as_str()).as_str());
    url.append("&");
    url.append(query.as_str());
    url
}

} // verus!
