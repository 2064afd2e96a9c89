//! Text-message codes, sessions and users.

use crate::alisms::SmsBody;
use crate::error::E;
use crate::utils::{aes_decrypted, aes_encrypted, decimal, decimal_of, decrypt, encrypt};
use crypto::digest::Digest;
use crypto::md5::Md5;
use rand::Rng;
use rustc_serialize::base64::{FromBase64, FromBase64Error, ToBase64, URL_SAFE};
use vstd::string::StrSliceExecFns;
use vstd::utf8::{
    decode_utf8, encode_utf8, is_ascii_chars, is_ascii_chars_encode_utf8, valid_utf8,
};
use crate::worker::{found, Coin, State};
use std::sync::mpsc::Sender;
use vstd::prelude::*;
use vstd::string::{StringExecFns, StringSliceAdditionalSpecFns};

verus! {

/// The sending half of a channel of the standard library.
#[verifier::external_type_specification]
#[verifier::external_body]
#[verifier::reject_recursive_types(T)]
pub struct ExSender<T>(Sender<T>);

/// A message to a user's phone.
pub enum Sms {
    /// The code that proves that the phone is the user's.
    Verification { phone: String, code: String },
}

/// Makes text messages and hands them to the worker that sends them.
pub struct SmsFactory {
    pub key_id: String,
    pub key_secret: String,
    pub tx: Sender<SmsBody>,
}

/// What a user is granted who asked for a verification code.
#[derive(PartialEq, Eq, Structural, Clone, Copy, Debug)]
pub struct CodeGrant {
    /// The code to send.
    pub code: u32,
    /// Seconds until the next code may be asked for.
    pub interval: i64,
}

/// The latest code that was sent to a phone, as the store keeps it.
#[derive(PartialEq, Eq, Structural, Clone, Copy, Debug)]
pub struct StoredCode {
    pub id: i64,
    pub code: u32,
    /// Failed attempts so far; negative once the code was used.
    pub err_times: i64,
    pub created: i64,
}

/// What becomes of a stored code after an attempt to verify it.
#[derive(PartialEq, Eq, Structural, Clone, Copy, Debug)]
pub enum CodeUpdate {
    /// The stored code stays as it is.
    Keep,
    /// One more failed attempt is counted.
    CountError,
    /// The code is marked as used.
    MarkUsed,
}

/// `Sender::send` of the standard library. Whether the message is taken
/// depends on the receiving half being alive, so nothing is claimed of the result.
#[verifier::external_body]
fn channel_send(tx: &Sender<SmsBody>, body: SmsBody) -> (sent: bool) {
    tx.send(body).is_ok()
}

/// `thread_rng` and `Rng::gen_range` of the `rand` crate: a number chosen at
/// random that is at least `low` and less than `high`. The generator asks the
/// system for entropy when a thread first uses it.
#[verifier::external_body]
fn random_below(low: u32, high: u32) -> (n: u32)
    requires
        low < high,
    ensures
        low <= n < high,
{
    rand::thread_rng().gen_range(low, high)
}

/// The template parameters of a verification message: `{"code":"` the code `"}`.
pub open spec fn code_param(code: Seq<char>) -> Seq<char> {
    "{\"code\":\""@ + code + "\"}"@
}

/// Whether a phone may be sent another code at `now`, and after how many
/// seconds it may ask again. `send_times` codes went out during the last day,
/// the latest at `last_created`. More than 10 a day are refused; after `n`
/// codes the next one has to wait `n` minutes.
pub open spec fn send_verdict(now: int, send_times: int, last_created: Option<i64>) -> Result<
    i64,
    E,
> {
    let last: int = match last_created {
        Some(at) => at as int,
        None => 0,
    };
    if send_times > 10 {
        Err(E::SmsSendLimit)
    } else if last + send_times * 60 > now {
        Err(E::SmsSendInterval((send_times * 60) as i64))
    } else {
        Ok(((send_times + 1) * 60) as i64)
    }
}

/// What an attempt to verify `code_input` at `now` comes to, and what
/// becomes of the stored code. A used code, more than 10 failed attempts and
/// a code older than 600 seconds are refused in this order before the codes
/// are compared.
pub open spec fn check_verdict(stored: Option<StoredCode>, code_input: u32, now: int) -> (
    Result<(), E>,
    CodeUpdate,
) {
    match stored {
        None => (Err(E::SmsVerifyNotFound), CodeUpdate::Keep),
        Some(c) => if c.err_times < 0 {
            (Err(E::SmsVerified), CodeUpdate::Keep)
        } else if c.err_times > 10 {
            (Err(E::SmsVerifyLimit), CodeUpdate::Keep)
        } else if c.created + 600 < now {
            (Err(E::SmsVerifyExpired), CodeUpdate::Keep)
        } else if c.code != code_input {
            (Err(E::SmsVerifyInvalid), CodeUpdate::CountError)
        } else {
            (Ok(()), CodeUpdate::MarkUsed)
        },
    }
}

impl Sms {
    /// The message that carries the verification code `code` to `mobile`.
    pub fn verification(mobile: &str, code: u32) -> (sms: Sms)
        ensures
            sms matches Sms::Verification { phone, code: text } && phone@ == mobile@ && text@
                == decimal_of(code as int),
    {
        Sms::Verification { phone: mobile.to_owned(), code: decimal(code as i128) }
    }
}

impl SmsFactory {
    /// A factory that signs with the given key and sends through `tx`.
    pub fn new(key_id: &str, key_secret: &str, tx: Sender<SmsBody>) -> (f: Self)
        ensures
            f.key_id@ == key_id@,
            f.key_secret@ == key_secret@,
            f.tx == tx,
    {
        SmsFactory { key_id: key_id.to_owned(), key_secret: key_secret.to_owned(), tx }
    }

    /// What the gateway is asked to send for `sms`.
    pub fn body(&self, sms: Sms) -> (b: SmsBody)
        ensures
            b.key_id@ == self.key_id@,
            b.key_secret@ == self.key_secret@,
            b.sign_name@ == "yield助手"@,
            b.template_code@ == "SMS_123673246"@,
            b.out_id@ == ""@,
            sms matches Sms::Verification { phone, code } && b.phone_numbers@ == phone@
                && b.template_param@ == code_param(code@),
    {
        match sms {
            Sms::Verification { phone, code } => {
                let mut param = "{\"code\":\"".to_owned();
                param.append(code.as_str());
                param.append("\"}");
                SmsBody {
                    key_id: self.key_id.clone(),
                    key_secret: self.key_secret.clone(),
                    sign_name: "yield助手".to_owned(),
                    template_code: "SMS_123673246".to_owned(),
                    phone_numbers: phone,
                    template_param: param,
                    out_id: "".to_owned(),
                }
            },
        }
    }

    /// What `send` returns when the channel took the message, and when it did not.
    pub fn sent(taken: bool) -> (r: Result<(), E>)
        ensures
            taken ==> r == Ok::<(), E>(()),
            !taken ==> r == Err::<(), E>(E::Unknown),
    {
        if taken {
            Ok(())
        } else {
            Err(E::Unknown)
        }
    }

    /// Hands the message to the sending worker. Fails with `E::Unknown`
    /// where the worker is gone.
    pub fn send(&self, sms: Sms) -> (r: Result<(), E>)
        ensures
            r == Ok::<(), E>(()) || r == Err::<(), E>(E::Unknown),
    {
        let body = self.body(sms);
        SmsFactory::sent(channel_send(&self.tx, body))
    }

    /// Decides whether a phone may be sent another code.
    pub fn send_interval(now: i64, send_times: i64, last_created: Option<i64>) -> (r: Result<
        i64,
        E,
    >)
        requires
            0 <= send_times,
        ensures
            r == send_verdict(now as int, send_times as int, last_created),
    {
        let last: i64 = match last_created {
            Some(at) => at,
            None => 0,
        };
        if send_times > 10 {
            Err(E::SmsSendLimit)
        } else if last as i128 + (send_times as i128) * 60 > now as i128 {
            Err(E::SmsSendInterval(send_times * 60))
        } else {
            Ok((send_times + 1) * 60)
        }
    }

    /// Grants a phone a new verification code, chosen at random from 1000 up
    /// to, not including, 9999, unless the phone has to wait.
    pub fn gen_code(&self, now: i64, send_times: i64, last_created: Option<i64>) -> (r: Result<
        CodeGrant,
        E,
    >)
        requires
            0 <= send_times,
        ensures
            match send_verdict(now as int, send_times as int, last_created) {
                Ok(interval) => r matches Ok(grant) && grant.interval == interval && 1000
                    <= grant.code < 9999,
                Err(e) => r == Err::<CodeGrant, E>(e),
            },
    {
        match SmsFactory::send_interval(now, send_times, last_created) {
            Ok(interval) => Ok(CodeGrant { code: random_below(1000, 9999), interval }),
            Err(e) => Err(e),
        }
    }

    /// Judges an attempt to verify `code_input` at `now` against the latest
    /// code that was sent to the phone.
    pub fn check_code(&self, stored: Option<StoredCode>, code_input: u32, now: i64) -> (r: (
        Result<(), E>,
        CodeUpdate,
    ))
        ensures
            r == check_verdict(stored, code_input, now as int),
    {
        match stored {
            None => (Err(E::SmsVerifyNotFound), CodeUpdate::Keep),
            Some(c) => {
                if c.err_times < 0 {
                    (Err(E::SmsVerified), CodeUpdate::Keep)
                } else if c.err_times > 10 {
                    (Err(E::SmsVerifyLimit), CodeUpdate::Keep)
                } else if (c.created as i128) + 600 < now as i128 {
                    (Err(E::SmsVerifyExpired), CodeUpdate::Keep)
                } else if c.code != code_input {
                    (Err(E::SmsVerifyInvalid), CodeUpdate::CountError)
                } else {
                    (Ok(()), CodeUpdate::MarkUsed)
                }
            },
        }
    }
}

/// The parameters of a request's query string, in the order in which they came.
#[derive(Debug)]
pub struct QueryString(pub Vec<(String, String)>);

/// The value that a list of parameters gives for `key`: that of the last
/// parameter of that name.
pub open spec fn value_of(items: Seq<(String, String)>, key: Seq<char>) -> Option<String>
    decreases items.len(),
{
    if items.len() == 0 {
        None
    } else if items.last().0@ == key {
        Some(items.last().1)
    } else {
        value_of(items.drop_last(), key)
    }
}

impl QueryString {
    /// A query string without parameters.
    pub fn new() -> (qs: Self)
        ensures
            qs.0@ == Seq::<(String, String)>::empty(),
    {
        QueryString(Vec::new())
    }

    /// Adds a parameter. It takes the place of an earlier one of the same name.
    pub fn insert(&mut self, key: String, value: String)
        ensures
            final(self).0@ == old(self).0@.push((key, value)),
    {
        self.0.push((key, value));
    }

    /// The value of the parameter `key`, if the query string has one.
    pub fn get(&self, key: &String) -> (r: Option<&String>)
        ensures
            match r {
                Some(v) => value_of(self.0@, key@) == Some(*v),
                None => value_of(self.0@, key@) is None,
            },
    {
        let mut i: usize = self.0.len();
        proof {
            assert(self.0@.take(i as int) == self.0@);
        }
        while i > 0
            invariant
                0 <= i <= self.0@.len(),
                value_of(self.0@, key@) == value_of(self.0@.take(i as int), key@),
            decreases i,
        {
            proof {
                assert(self.0@.take(i as int).drop_last() == self.0@.take(i - 1));
            }
            i -= 1;
            if self.0[i].0 == *key {
                return Some(&self.0[i].1);
            }
        }
        None
    }
}

/// A user of the service.
#[derive(Debug)]
pub struct User {
    pub id: i64,
    pub name: String,
    pub mobile: String,
    pub created: i64,
}

/// By what a user is looked up.
pub enum UserKey {
    /// By the user's id.
    Id(i64),
    /// By the user's phone number.
    Mobile(String),
}

/// One holding event as the store keeps it.
pub struct StateRow<N> {
    pub id: i64,
    pub coin_id: String,
    pub amount: N,
    pub created: i64,
}

/// One holding event of a user, with the asset that it is about where the
/// catalog knows it.
#[derive(Debug, Clone)]
pub struct UserCoin<'a, N> {
    pub id: i64,
    pub coin_id: String,
    pub amount: N,
    pub created: i64,
    pub coin: Option<&'a Coin<N>>,
}

/// How a holding event is written to the store.
#[derive(PartialEq, Eq, Structural, Clone, Copy, Debug)]
pub enum StateWrite {
    /// The event with the given id is overwritten.
    Update,
    /// A new event is stored.
    Insert,
}

/// The event that belongs to a stored row: the row's values, and the first
/// asset of the catalog that has the row's asset id.
pub open spec fn is_event_of<N>(event: UserCoin<N>, row: StateRow<N>, coins: Seq<Coin<N>>) -> bool {
    &&& event.id == row.id
    &&& event.coin_id == row.coin_id
    &&& event.amount == row.amount
    &&& event.created == row.created
    &&& match event.coin {
        Some(coin) => exists|i: int| found(coins, row.coin_id@, i) && *coin == coins[i],
        None => forall|i: int| 0 <= i < coins.len() ==> (#[trigger] coins[i]).id@ != row.coin_id@,
    }
}

impl User {
    /// Whether a holding event with the given id overwrites a stored one
    /// (a positive id) or is stored as a new one.
    pub fn put_states(&self, id: i64) -> (w: StateWrite)
        ensures
            w == if id > 0 {
                StateWrite::Update
            } else {
                StateWrite::Insert
            },
    {
        if id > 0 {
            StateWrite::Update
        } else {
            StateWrite::Insert
        }
    }

    /// The holding events of a user: one for each stored row, in the order
    /// of the rows, each with its asset from the catalog of `worker_state`.
    pub fn states<'a, N: Copy>(
        &self,
        rows: &Vec<StateRow<N>>,
        worker_state: &'a State<N>,
    ) -> (events: Vec<UserCoin<'a, N>>)
        ensures
            events@.len() == rows@.len(),
            forall|i: int|
                0 <= i < rows@.len() ==> is_event_of(
                    #[trigger] events@[i],
                    rows@[i],
                    worker_state.coins@,
                ),
    {
        let mut events: Vec<UserCoin<'a, N>> = Vec::new();
        let mut i: usize = 0;
        while i < rows.len()
            invariant
                0 <= i <= rows@.len(),
                events@.len() == i,
                forall|j: int|
                    0 <= j < i ==> is_event_of(#[trigger] events@[j], rows@[j], worker_state.coins@),
            decreases rows@.len() - i,
        {
            let row = &rows[i];
            let coin = worker_state.find(&row.coin_id);
            events.push(
                UserCoin {
                    id: row.id,
                    coin_id: row.coin_id.clone(),
                    amount: row.amount,
                    created: row.created,
                    coin,
                },
            );
            i += 1;
        }
        events
    }

    /// By what a user is looked up: by the id where one is given, else by
    /// the phone number. `E::Unknown` where neither is given.
    pub fn find(user_id: Option<i64>, mobile: Option<&str>) -> (r: Result<UserKey, E>)
        ensures
            match (user_id, mobile) {
                (Some(id), _) => r matches Ok(UserKey::Id(k)) && k == id,
                (None, Some(m)) => r matches Ok(UserKey::Mobile(k)) && k@ == m@,
                (None, None) => r is Err && r->Err_0 == E::Unknown,
            },
    {
        match user_id {
            Some(id) => Ok(UserKey::Id(id)),
            None => match mobile {
                Some(m) => Ok(UserKey::Mobile(m.to_owned())),
                None => Err(E::Unknown),
            },
        }
    }
}

/// A login of one phone number, owned by a user once that user signed up.
#[derive(Debug)]
pub struct Session {
    pub id: String,
    pub mobile: String,
    /// The user that owns the session, once one signed up.
    pub user: Option<User>,
    pub accessed: i64,
    pub created: i64,
}

/// The error of the base64 decoder of the `rustc_serialize` crate.
#[verifier::external_type_specification]
#[verifier::external_body]
pub struct ExFromBase64Error(FromBase64Error);

/// The MD5 digest of the bytes of `text` in lower-case hexadecimal digits,
/// as the `rust-crypto` crate writes it.
pub uninterp spec fn md5_hex_of(text: Seq<char>) -> Seq<char>;

/// The base64 text of `data` in the URL-safe alphabet without padding, as
/// the `rustc_serialize` crate writes it.
pub uninterp spec fn base64_url_of(data: Seq<u8>) -> Seq<char>;

/// The bytes that the `rustc_serialize` crate reads from a base64 text;
/// `None` where it reports an error.
pub uninterp spec fn base64_decoded(text: Seq<char>) -> Option<Seq<u8>>;

/// A lower-case hexadecimal digit.
pub open spec fn is_hex_digit(c: char) -> bool {
    ('0' <= c <= '9') || ('a' <= c <= 'f')
}

/// `Md5::new`, `input_str` and `result_str` of the `rust-crypto` crate: the
/// 16 bytes of the digest, each written as two lower-case hexadecimal digits.
#[verifier::external_body]
fn md5_hex(text: &str) -> (hex: String)
    ensures
        hex@ == md5_hex_of(text@),
        hex@.len() == 32,
        forall|i: int| 0 <= i < hex@.len() ==> is_hex_digit(#[trigger] hex@[i]),
{
    let mut hasher = Md5::new();
    hasher.input_str(text);
    hasher.result_str()
}

/// `to_base64` of the `rustc_serialize` crate with its `URL_SAFE` configuration.
#[verifier::external_body]
fn base64_url(data: &[u8]) -> (text: String)
    ensures
        text@ == base64_url_of(data@),
{
    data.to_base64(URL_SAFE)
}

/// `from_base64` of the `rustc_serialize` crate on a text.
#[verifier::external_body]
fn base64_decode(text: &str) -> (r: Result<Vec<u8>, FromBase64Error>)
    ensures
        match r {
            Ok(data) => base64_decoded(text@) == Some(data@),
            Err(_) => base64_decoded(text@) is None,
        },
{
    text.from_base64()
}

/// `String::from_utf8` of the standard library: the text that the bytes
/// encode, or nothing where they are not UTF-8.
#[verifier::external_body]
fn text_from_utf8(bytes: Vec<u8>) -> (r: Option<String>)
    ensures
        match r {
            Some(text) => valid_utf8(bytes@) && text@ == decode_utf8(bytes@),
            None => !valid_utf8(bytes@),
        },
{
    String::from_utf8(bytes).ok()
}

/// The key under which session ids are encrypted: the bytes of the
/// hexadecimal MD5 digest of `Session::KEY`.
pub open spec fn session_key() -> Seq<u8> {
    encode_utf8(md5_hex_of("j0n"@))
}

/// The access token of a session id: the id encrypted under the session key, in base64.
pub open spec fn token_of_id(sess_id: Seq<char>) -> Option<Seq<char>> {
    match aes_encrypted(encode_utf8(sess_id), session_key()) {
        Some(data) => Some(base64_url_of(data)),
        None => None,
    }
}

/// The session id of an access token: the token read as base64, decrypted
/// under the session key and read as UTF-8; `None` where one of these fails.
pub open spec fn id_of_token(token: Seq<char>) -> Option<Seq<char>> {
    match base64_decoded(token) {
        None => None,
        Some(data) => match aes_decrypted(data, session_key()) {
            None => None,
            Some(bytes) => if valid_utf8(bytes) {
                Some(decode_utf8(bytes))
            } else {
                None
            },
        },
    }
}

impl Session {
    /// The secret that the session key is made of.
    pub const KEY: &'static str = "j0n";

    /// Seconds after the last access at which a session ends.
    pub const EXPIRES_IN: i64 = 2592000;

    /// The session of `mobile` with the given id, begun and last accessed at `now`.
    pub fn new(id: String, mobile: &str, user: Option<User>, now: i64) -> (s: Self)
        ensures
            s.id == id,
            s.mobile@ == mobile@,
            s.user == user,
            s.accessed == now,
            s.created == now,
    {
        Session { id, mobile: mobile.to_owned(), user, accessed: now, created: now }
    }

    /// The user that owns the session; `E::UserNotFound` where nobody signed up yet.
    pub fn user(&self) -> (r: Result<&User, E>)
        ensures
            match self.user {
                Some(u) => r == Ok::<&User, E>(&u),
                None => r == Err::<&User, E>(E::UserNotFound),
            },
    {
        match self.user {
            Some(ref u) => Ok(u),
            None => Err(E::UserNotFound),
        }
    }

    /// Makes the user that was stored under `user_id` the owner of the
    /// session. A session that has an owner keeps it and reports
    /// `E::SessionIsOwned`.
    pub fn signup(&mut self, user_id: i64, name: &str, now: i64) -> (r: Result<(), E>)
        ensures
            final(self).id == old(self).id,
            final(self).mobile == old(self).mobile,
            final(self).accessed == old(self).accessed,
            final(self).created == old(self).created,
            old(self).user is Some ==> r == Err::<(), E>(E::SessionIsOwned),
            old(self).user is Some ==> final(self).user == old(self).user,
            old(self).user is None ==> r == Ok::<(), E>(()),
            old(self).user is None ==> (final(self).user matches Some(u) && u.id == user_id
                && u.name@ == name@ && u.mobile == old(self).mobile && u.created == now),
    {
        if self.user.is_some() {
            return Err(E::SessionIsOwned);
        }
        self.user = Some(
            User { id: user_id, name: name.to_owned(), mobile: self.mobile.clone(), created: now },
        );
        Ok(())
    }

    /// The session has ended at `now`: more than `EXPIRES_IN` seconds passed since `accessed`.
    pub open spec fn expired_at(accessed: int, now: int) -> bool {
        accessed + Session::EXPIRES_IN < now
    }

    /// Takes up a stored session at `now`. `stored` is what the store holds
    /// under `sess_id`: phone number, time of the last access and time of
    /// creation; `user` is the user that owns it, if any. A session that is not
    /// stored, or that has ended, is reported as `E::SessionExpired`.
    pub fn init(
        sess_id: &str,
        stored: Option<(String, i64, i64)>,
        user: Option<User>,
        now: i64,
    ) -> (r: Result<Session, E>)
        ensures
            match stored {
                None => r is Err && r->Err_0 == E::SessionExpired,
                Some((mobile, accessed, created)) => if Session::expired_at(
                    accessed as int,
                    now as int,
                ) {
                    r is Err && r->Err_0 == E::SessionExpired
                } else {
                    r matches Ok(s) && s.id@ == sess_id@ && s.mobile == mobile && s.user == user
                        && s.accessed == accessed && s.created == created
                },
            },
    {
        match stored {
            None => Err(E::SessionExpired),
            Some((mobile, accessed, created)) => {
                if accessed as i128 + (Session::EXPIRES_IN as i128) < now as i128 {
                    Err(E::SessionExpired)
                } else {
                    Ok(Session { id: sess_id.to_owned(), mobile, user, accessed, created })
                }
            },
        }
    }

    /// The access token that a request carries in its query string;
    /// `E::AccessTokenNotFound` where it carries none.
    pub fn token_of(qs: &QueryString) -> (r: Result<&String, E>)
        ensures
            match r {
                Ok(token) => value_of(qs.0@, "access_token"@) == Some(*token),
                Err(e) => e == E::AccessTokenNotFound && value_of(qs.0@, "access_token"@) is None,
            },
    {
        let key = "access_token".to_owned();
        match qs.get(&key) {
            Some(token) => Ok(token),
            None => Err(E::AccessTokenNotFound),
        }
    }

    /// The bytes of the session key, 32 of them.
    fn key() -> (key: Vec<u8>)
        ensures
            key@ == session_key(),
            key@.len() == 32,
    {
        let hex = md5_hex("j0n");
        proof {
            assert(is_ascii_chars(hex@)) by {
                assert forall|i: int| 0 <= i < hex@.len() implies '\0' <= #[trigger] hex@[i]
                    <= '\u{7f}' by {
                    assert(is_hex_digit(hex@[i]));
                }
            }
            is_ascii_chars_encode_utf8(hex@);
        }
        hex.as_str().as_bytes_vec()
    }

    /// Encrypts a session id into an access token. `E::Unknown` where the
    /// cipher fails.
    pub fn id_to_access_token(sess_id: &str) -> (r: Result<String, E>)
        ensures
            match r {
                Ok(token) => token_of_id(sess_id@) == Some(token@),
                Err(e) => e == E::Unknown && token_of_id(sess_id@) is None,
            },
    {
        let key = Session::key();
        match encrypt(sess_id.as_bytes(), key.as_slice()) {
            Ok(data) => Ok(base64_url(data.as_slice())),
            Err(_) => Err(E::Unknown),
        }
    }

    /// Decrypts an access token into the session id that it was made of.
    /// `E::AccessTokenInvalid` where the token is no base64 text, does not
    /// decrypt, or does not decrypt to UTF-8.
    pub fn access_token_to_id(access_token: &str) -> (r: Result<String, E>)
        ensures
            match r {
                Ok(id) => id_of_token(access_token@) == Some(id@),
                Err(e) => e == E::AccessTokenInvalid && id_of_token(access_token@) is None,
            },
    {
        let key = Session::key();
        let data = match base64_decode(access_token) {
            Ok(data) => data,
            Err(_) => { return Err(E::AccessTokenInvalid); },
        };
        let bytes = match decrypt(data.as_slice(), key.as_slice()) {
            Some(bytes) => bytes,
            None => { return Err(E::AccessTokenInvalid); },
        };
        match text_from_utf8(bytes) {
            Some(id) => Ok(id),
            None => Err(E::AccessTokenInvalid),
        }
    }

    /// Finds the session id that a request's access token stands for:
    /// `E::AccessTokenNotFound` where the request carries no token,
    /// `E::AccessTokenInvalid` where the token stands for no session id.
    pub fn from_query_string(qs: &QueryString) -> (r: Result<String, E>)
        ensures
            match value_of(qs.0@, "access_token"@) {
                None => r == Err::<String, E>(E::AccessTokenNotFound),
                Some(token) => match r {
                    Ok(id) => id_of_token(token@) == Some(id@),
                    Err(e) => e == E::AccessTokenInvalid && id_of_token(token@) is None,
                },
            },
    {
        match Session::token_of(qs) {
            Ok(token) => Session::access_token_to_id(token.as_str()),
            Err(e) => Err(e),
        }
    }
}

} // verus!
