//! The account service handshake: login, session refresh and server join.
//!
//! Each of the three is a step function: it is told what has happened so
//! far and says what to do next, either to send a request and come back
//! with the answer, or that the exchange is done. The caller does the
//! sending.

use super::error::{Error, ErrorView, Field};
use super::json::{json_document, json_quoted, parse_document, quote, string_at};
use super::login::{uuid_bytes, uuid_hex, Account, AccountView, UUID};
use super::signed_hex::{
    be_value, hex_digit, hex_digits, is_negative, lemma_be_value_bound, lemma_be_value_first,
    lemma_hex_digits_byte, lemma_pow256_positive, pow256, signed_hex, signed_value,
};
use crate::text::push_char;
use sha1::{Digest, Sha1};
use vstd::prelude::*;
use vstd::slice::slice_to_vec;
use vstd::string::StringExecFns;
use vstd::utf8::encode_utf8;

verus! {

pub const JOIN_URL: &'static str = "https://sessionserver.mojang.com/session/minecraft/join";

pub const LOGIN_URL: &'static str = "https://authserver.mojang.com/authenticate";

pub const REFRESH_URL: &'static str = "https://authserver.mojang.com/refresh";

pub const VALIDATE_URL: &'static str = "https://authserver.mojang.com/validate";

/// The status with which the service says yes without saying more.
pub const NO_CONTENT: u16 = 204;

/// A request to post: JSON to a URL.
#[derive(Clone, Debug, PartialEq, Eq)]
pub struct Request {
    pub url: String,
    pub body: String,
}

/// What to do next in an exchange with the service.
#[derive(Clone, Debug, PartialEq, Eq)]
pub enum Step<T> {
    /// Post the request and come back with the answer.
    Send(Request),
    /// The exchange is over.
    Done(T),
}

/// How far a refresh has come.
#[derive(Clone, Debug, PartialEq, Eq)]
pub enum Progress {
    /// Nothing was sent yet.
    Start,
    /// The validate request was answered with this status.
    Validated { status: u16 },
    /// The refresh request was answered with this body.
    Refreshed { body: Vec<u8> },
}

/// The strings that the service's answers are read for.
#[derive(Clone, Debug, PartialEq, Eq)]
pub struct Answer {
    pub error: Option<String>,
    pub error_message: Option<String>,
    pub profile_name: Option<String>,
    pub profile_id: Option<String>,
    pub access_token: Option<String>,
}

/// An answer as plain values.
pub struct AnswerView {
    pub error: Option<Seq<char>>,
    pub error_message: Option<Seq<char>>,
    pub profile_name: Option<Seq<char>>,
    pub profile_id: Option<Seq<char>>,
    pub access_token: Option<Seq<char>>,
}

/// The text of an optional string.
pub open spec fn text_of(text: Option<String>) -> Option<Seq<char>> {
    match text {
        Some(text) => Some(text@),
        None => None,
    }
}

impl View for Answer {
    type V = AnswerView;

    open spec fn view(&self) -> AnswerView {
        AnswerView {
            error: text_of(self.error),
            error_message: text_of(self.error_message),
            profile_name: text_of(self.profile_name),
            profile_id: text_of(self.profile_id),
            access_token: text_of(self.access_token),
        }
    }
}

/// The string under a pointer, where there is one.
pub open spec fn lookup(strings: Map<Seq<char>, Seq<char>>, pointer: Seq<char>) -> Option<
    Seq<char>,
> {
    if strings.contains_key(pointer) {
        Some(strings[pointer])
    } else {
        None
    }
}

/// What an answer with these strings says.
pub open spec fn answer_of(strings: Map<Seq<char>, Seq<char>>) -> AnswerView {
    AnswerView {
        error: lookup(strings, "/error"@),
        error_message: lookup(strings, "/errorMessage"@),
        profile_name: lookup(strings, "/selectedProfile/name"@),
        profile_id: lookup(strings, "/selectedProfile/id"@),
        access_token: lookup(strings, "/accessToken"@),
    }
}

/// The body of a login request.
pub open spec fn login_body(name: Seq<char>, password: Seq<char>, token: Seq<char>) -> Seq<char> {
    "{\"agent\":{\"name\":\"Minecraft\",\"version\":1},\"clientToken\":"@ + json_quoted(token)
        + ",\"password\":"@ + json_quoted(password) + ",\"username\":"@ + json_quoted(name)
        + "}"@
}

/// The body of a validate request, and of a refresh request.
pub open spec fn session_body(access_token: Seq<char>, token: Seq<char>) -> Seq<char> {
    "{\"accessToken\":"@ + json_quoted(access_token) + ",\"clientToken\":"@ + json_quoted(token)
        + "}"@
}

/// The body of a join request.
pub open spec fn join_body(access_token: Seq<char>, uuid: Seq<u8>, hash: Seq<char>) -> Seq<char> {
    "{\"accessToken\":"@ + json_quoted(access_token) + ",\"selectedProfile\":"@ + json_quoted(
        uuid_hex(uuid),
    ) + ",\"serverId\":"@ + json_quoted(hash) + "}"@
}

/// The message of a refusal by the service: its error and what it says
/// about it.
pub open spec fn refusal(error: Seq<char>, message: Seq<char>) -> Seq<char> {
    error + ": "@ + message
}

/// What is said of an account that has no profile.
pub open spec fn not_owned() -> Seq<char> {
    "Authentication error: This account doesn't seem to own the game"@
}

/// What is said of a join that the session server did not accept.
pub open spec fn join_failed() -> Seq<char> {
    "Failed to auth with server"@
}

/// The refusal that an answer holds, if it holds one: an answer with an
/// `error` is a refusal, and one without a message beside it is malformed.
pub open spec fn refused(answer: AnswerView) -> Option<ErrorView> {
    match answer.error {
        None => None,
        Some(error) => match answer.error_message {
            Some(message) => Some(ErrorView::Failed(refusal(error, message))),
            None => Some(ErrorView::Malformed(Field::ErrorMessage)),
        },
    }
}

/// The account that the answer to a login gives. `login_name` is the name
/// that was logged in with, which goes to slot 0; the account's own name is
/// the one that the service resolved.
pub open spec fn login_outcome(login_name: Seq<char>, answer: AnswerView) -> Result<
    AccountView,
    ErrorView,
> {
    if let Some(error) = refused(answer) {
        Err(error)
    } else if answer.profile_name is None {
        Err(ErrorView::Failed(not_owned()))
    } else if answer.profile_id is None {
        Err(ErrorView::Malformed(Field::ProfileId))
    } else if answer.access_token is None {
        Err(ErrorView::Malformed(Field::AccessToken))
    } else {
        Ok(
            AccountView {
                name: answer.profile_name->0,
                uuid: uuid_bytes(answer.profile_id->0),
                verification_tokens: seq![login_name, Seq::empty(), answer.access_token->0],
                head_img_data: None,
            },
        )
    }
}

/// The tokens of an account after a refresh brought a new access token: an
/// account without tokens gets two empty slots and the token; any other
/// keeps its first two tokens at most, and the token comes behind them.
pub open spec fn refreshed_tokens(tokens: Seq<Seq<char>>, access_token: Seq<char>) -> Seq<
    Seq<char>,
> {
    if tokens.len() == 0 {
        seq![Seq::empty(), Seq::empty(), access_token]
    } else if tokens.len() >= 3 {
        tokens.take(2).push(access_token)
    } else {
        tokens.push(access_token)
    }
}

/// The account that the answer to a refresh gives.
pub open spec fn refresh_outcome(account: AccountView, answer: AnswerView) -> Result<
    AccountView,
    ErrorView,
> {
    if let Some(error) = refused(answer) {
        Err(error)
    } else if answer.profile_name is None {
        Err(ErrorView::Malformed(Field::ProfileName))
    } else if answer.profile_id is None {
        Err(ErrorView::Malformed(Field::ProfileId))
    } else if answer.access_token is None {
        Err(ErrorView::Malformed(Field::AccessToken))
    } else {
        Ok(
            AccountView {
                name: answer.profile_name->0,
                uuid: uuid_bytes(answer.profile_id->0),
                verification_tokens: refreshed_tokens(
                    account.verification_tokens,
                    answer.access_token->0,
                ),
                head_img_data: None,
            },
        )
    }
}

/// After a refresh of an account that had its access token in slot 2, or no
/// tokens at all, there are three tokens, the new access token is in slot 2,
/// and slots 0 and 1 are as they were.
pub proof fn lemma_refresh_keeps_slot_two(tokens: Seq<Seq<char>>, access_token: Seq<char>)
    requires
        tokens.len() == 0 || tokens.len() >= 3,
    ensures
        refreshed_tokens(tokens, access_token).len() == 3,
        refreshed_tokens(tokens, access_token)[2] == access_token,
        tokens.len() >= 3 ==> refreshed_tokens(tokens, access_token)[0] == tokens[0]
            && refreshed_tokens(tokens, access_token)[1] == tokens[1],
{
}

/// Whether a step is what a specification says it is.
pub open spec fn is_send<T>(step: Result<Step<T>, Error>, url: Seq<char>, body: Seq<char>) -> bool {
    step matches Ok(Step::Send(request)) && request.url@ == url && request.body@ == body
}

/// Whether a step is the failure that a specification says it is.
pub open spec fn is_failure<T>(step: Result<T, Error>, error: ErrorView) -> bool {
    step matches Err(e) && e@ == error
}

/// The account service of Mojang.
pub struct MojangAccount {}

fn request(url: &str, body: String) -> (r: Request)
    ensures
        r.url@ == url@,
        r.body@ == body@,
{
    Request { url: url.to_owned(), body }
}

fn quoted(text: &str) -> (r: String)
    ensures
        r@ == json_quoted(text@),
{
    match quote(text) {
        Some(quoted) => quoted,
        None => String::new(),
    }
}

fn failed(message: &str) -> (e: Error)
    ensures
        e@ == ErrorView::Failed(message@),
{
    Error::Failed(message.to_owned())
}

fn session_request(url: &str, access_token: &str, token: &str) -> (r: Request)
    ensures
        r.url@ == url@,
        r.body@ == session_body(access_token@, token@),
{
    let mut body = String::new();
    body.append("{\"accessToken\":");
    body.append(quoted(access_token).as_str());
    body.append(",\"clientToken\":");
    body.append(quoted(token).as_str());
    body.append("}");
    assert(body@ =~= session_body(access_token@, token@));
    request(url, body)
}

impl Answer {
    /// Reads the answer of the service out of the body it sent.
    pub fn parse(body: &[u8]) -> (r: Result<Answer, Error>)
        ensures
            match json_document(body@) {
                Some(strings) => r matches Ok(answer) && answer@ == answer_of(strings),
                None => is_failure(r, ErrorView::Json),
            },
    {
        let document = match parse_document(body) {
            Some(document) => document,
            None => {
                return Err(Error::Json);
            },
        };
        Ok(
            Answer {
                error: string_at(&document, "/error"),
                error_message: string_at(&document, "/errorMessage"),
                profile_name: string_at(&document, "/selectedProfile/name"),
                profile_id: string_at(&document, "/selectedProfile/id"),
                access_token: string_at(&document, "/accessToken"),
            },
        )
    }

    /// The refusal that the answer holds, if it holds one.
    pub fn refusal(&self) -> (r: Option<Error>)
        ensures
            match refused(self@) {
                Some(error) => r matches Some(e) && e@ == error,
                None => r is None,
            },
    {
        match &self.error {
            None => None,
            Some(error) => match &self.error_message {
                Some(message) => {
                    let mut text = error.clone();
                    text.append(": ");
                    text.append(message.as_str());
                    assert(text@ =~= refusal(error@, message@));
                    Some(Error::Failed(text))
                },
                None => Some(Error::Malformed(Field::ErrorMessage)),
            },
        }
    }
}

impl MojangAccount {
    /// The account that the answer to a login gives.
    pub fn login_account(&self, name: &str, answer: Answer) -> (r: Result<Account, Error>)
        ensures
            match login_outcome(name@, answer@) {
                Ok(account) => r matches Ok(a) && a@ == account,
                Err(error) => is_failure(r, error),
            },
    {
        if let Some(error) = answer.refusal() {
            return Err(error);
        }
        let username = match answer.profile_name {
            Some(username) => username,
            None => {
                return Err(
                    failed("Authentication error: This account doesn't seem to own the game"),
                );
            },
        };
        let id = match answer.profile_id {
            Some(id) => id,
            None => {
                return Err(Error::Malformed(Field::ProfileId));
            },
        };
        let access_token = match answer.access_token {
            Some(access_token) => access_token,
            None => {
                return Err(Error::Malformed(Field::AccessToken));
            },
        };
        let verification_tokens = vec![name.to_owned(), String::new(), access_token];
        assert(verification_tokens.deep_view() =~= seq![name@, Seq::empty(), access_token@]);
        Ok(
            Account {
                name: username,
                uuid: UUID::parse(id.as_str()),
                verification_tokens,
                head_img_data: None,
            },
        )
    }

    /// The account that the answer to a refresh gives.
    pub fn refresh_account(&self, account: Account, answer: Answer) -> (r: Result<Account, Error>)
        ensures
            match refresh_outcome(account@, answer@) {
                Ok(refreshed) => r matches Ok(a) && a@ == refreshed,
                Err(error) => is_failure(r, error),
            },
    {
        if let Some(error) = answer.refusal() {
            return Err(error);
        }
        let username = match answer.profile_name {
            Some(username) => username,
            None => {
                return Err(Error::Malformed(Field::ProfileName));
            },
        };
        let id = match answer.profile_id {
            Some(id) => id,
            None => {
                return Err(Error::Malformed(Field::ProfileId));
            },
        };
        let access_token = match answer.access_token {
            Some(access_token) => access_token,
            None => {
                return Err(Error::Malformed(Field::AccessToken));
            },
        };
        let ghost old_tokens = account.verification_tokens.deep_view();
        let ghost new_token = access_token@;
        let verification_tokens = if account.verification_tokens.is_empty() {
            let fresh = vec![String::new(), String::new(), access_token];
            assert(fresh.deep_view() =~= seq![Seq::empty(), Seq::empty(), new_token]);
            fresh
        } else {
            let mut new_tokens = account.verification_tokens;
            if new_tokens.len() >= 3 {
                new_tokens.truncate(2);
                assert(new_tokens.deep_view() =~= old_tokens.take(2));
            }
            let ghost kept = new_tokens.deep_view();
            new_tokens.push(access_token);
            assert(new_tokens.deep_view() =~= kept.push(new_token));
            new_tokens
        };
        Ok(
            Account {
                name: username,
                uuid: UUID::parse(id.as_str()),
                verification_tokens,
                head_img_data: None,
            },
        )
    }

    /// A step of a login.
    ///
    /// Without an answer, the login request is to be sent. With the body of
    /// its answer, the login is done: the account is the one that the answer
    /// describes, or the login has failed.
    pub fn login(&self, name: &str, password: &str, token: &str, answer: Option<&[u8]>) -> (r:
        Result<Step<Account>, Error>)
        ensures
            match answer {
                None => is_send(r, LOGIN_URL@, login_body(name@, password@, token@)),
                Some(body) => match json_document(body@) {
                    None => is_failure(r, ErrorView::Json),
                    Some(strings) => match login_outcome(name@, answer_of(strings)) {
                        Ok(account) => r matches Ok(Step::Done(a)) && a@ == account,
                        Err(error) => is_failure(r, error),
                    },
                },
            },
    {
        match answer {
            None => {
                let mut body = String::new();
                body.append("{\"agent\":{\"name\":\"Minecraft\",\"version\":1},\"clientToken\":");
                body.append(quoted(token).as_str());
                body.append(",\"password\":");
                body.append(quoted(password).as_str());
                body.append(",\"username\":");
                body.append(quoted(name).as_str());
                body.append("}");
                assert(body@ =~= login_body(name@, password@, token@));
                Ok(Step::Send(request(LOGIN_URL, body)))
            },
            Some(body) => {
                let answer = match Answer::parse(body) {
                    Ok(answer) => answer,
                    Err(e) => {
                        return Err(e);
                    },
                };
                match self.login_account(name, answer) {
                    Ok(account) => Ok(Step::Done(account)),
                    Err(e) => Err(e),
                }
            },
        }
    }

    /// A step of a refresh.
    ///
    /// At the start the access token in slot 2 is to be validated; an
    /// account without one cannot be refreshed. Where the service answers
    /// the validation with "no content", the account is good as it is.
    /// Otherwise a refresh is to be requested, and its answer gives the new
    /// account.
    pub fn refresh(&self, account: Account, token: &str, progress: Progress) -> (r: Result<
        Step<Account>,
        Error,
    >)
        ensures
            match progress {
                Progress::Start => if account@.verification_tokens.len() > 2 {
                    is_send(
                        r,
                        VALIDATE_URL@,
                        session_body(account@.verification_tokens[2], token@),
                    )
                } else {
                    is_failure(r, ErrorView::IncompleteAccount)
                },
                Progress::Validated { status } => if status == NO_CONTENT {
                    r == Ok::<Step<Account>, Error>(Step::Done(account))
                } else if account@.verification_tokens.len() > 2 {
                    is_send(r, REFRESH_URL@, session_body(account@.verification_tokens[2], token@))
                } else {
                    is_failure(r, ErrorView::IncompleteAccount)
                },
                Progress::Refreshed { body } => match json_document(body@) {
                    None => is_failure(r, ErrorView::Json),
                    Some(strings) => match refresh_outcome(account@, answer_of(strings)) {
                        Ok(refreshed) => r matches Ok(Step::Done(a)) && a@ == refreshed,
                        Err(error) => is_failure(r, error),
                    },
                },
            },
    {
        match progress {
            Progress::Start => {
                if account.verification_tokens.len() > 2 {
                    assert(account@.verification_tokens[2] == account.verification_tokens[2]@);
                    Ok(
                        Step::Send(
                            session_request(
                                VALIDATE_URL,
                                account.verification_tokens[2].as_str(),
                                token,
                            ),
                        ),
                    )
                } else {
                    Err(Error::IncompleteAccount)
                }
            },
            Progress::Validated { status } => {
                if status == NO_CONTENT {
                    Ok(Step::Done(account))
                } else if account.verification_tokens.len() > 2 {
                    assert(account@.verification_tokens[2] == account.verification_tokens[2]@);
                    Ok(
                        Step::Send(
                            session_request(
                                REFRESH_URL,
                                account.verification_tokens[2].as_str(),
                                token,
                            ),
                        ),
                    )
                } else {
                    Err(Error::IncompleteAccount)
                }
            },
            Progress::Refreshed { body } => {
                let answer = match Answer::parse(body.as_slice()) {
                    Ok(answer) => answer,
                    Err(e) => {
                        return Err(e);
                    },
                };
                match self.refresh_account(account, answer) {
                    Ok(account) => Ok(Step::Done(account)),
                    Err(e) => Err(e),
                }
            },
        }
    }

    /// A step of joining a server.
    ///
    /// Without a status, the join request is to be sent: it proves the
    /// identity of the server by the hash of its id and keys, and needs the
    /// account's access token and uuid. With the status of the answer, the
    /// join is done: it went through on "no content" and failed on anything
    /// else.
    pub fn join_server(
        &self,
        account: &Account,
        server_id: &str,
        shared_key: &[u8],
        public_key: &[u8],
        status: Option<u16>,
    ) -> (r: Result<Step<()>, Error>)
        ensures
            match status {
                None => if account@.verification_tokens.len() > 2 && account@.uuid is Some {
                    is_send(
                        r,
                        JOIN_URL@,
                        join_body(
                            account@.verification_tokens[2],
                            account@.uuid->0,
                            signed_hex(
                                signed_value(
                                    sha1_hash(encode_utf8(server_id@) + shared_key@ + public_key@),
                                ),
                            ),
                        ),
                    )
                } else {
                    is_failure(r, ErrorView::IncompleteAccount)
                },
                Some(status) => if status == NO_CONTENT {
                    r == Ok::<Step<()>, Error>(Step::Done(()))
                } else {
                    is_failure(r, ErrorView::Failed(join_failed()))
                },
            },
    {
        match status {
            None => {
                if account.verification_tokens.len() <= 2 {
                    return Err(Error::IncompleteAccount);
                }
                let uuid = match &account.uuid {
                    Some(uuid) => uuid,
                    None => {
                        return Err(Error::IncompleteAccount);
                    },
                };
                assert(account@.verification_tokens[2] == account.verification_tokens[2]@);
                let hash_str = server_hash(server_id, shared_key, public_key);
                let mut body = String::new();
                body.append("{\"accessToken\":");
                body.append(quoted(account.verification_tokens[2].as_str()).as_str());
                body.append(",\"selectedProfile\":");
                body.append(quoted(uuid.hex().as_str()).as_str());
                body.append(",\"serverId\":");
                body.append(quoted(hash_str.as_str()).as_str());
                body.append("}");
                assert(body@ =~= join_body(
                    account@.verification_tokens[2],
                    account@.uuid->0,
                    hash_str@,
                ));
                Ok(Step::Send(request(JOIN_URL, body)))
            },
            Some(status) => {
                if status == NO_CONTENT {
                    Ok(Step::Done(()))
                } else {
                    Err(failed("Failed to auth with server"))
                }
            },
        }
    }

    /// Fetches nothing: this service keeps no avatars.
    pub fn append_head_img_data(&self, account: &mut Account) -> (r: Result<(), Error>)
        ensures
            r == Ok::<(), Error>(()),
            *final(account) == *old(account),
    {
        Ok(())
    }
}


/// The SHA-1 digest of a byte string.
pub uninterp spec fn sha1_hash(data: Seq<u8>) -> Seq<u8>;

/// `Sha1::digest` of the `sha1` crate: the digest is that of `data`, and it
/// has the 20 bytes that the hash function is defined to give.
#[verifier::external_body]
fn sha1_digest(data: &[u8]) -> (digest: Vec<u8>)
    ensures
        digest@ == sha1_hash(data@),
        digest@.len() == 20,
{
    Sha1::digest(data).to_vec()
}

/// What negation in two's complement makes of the number that bytes spell:
/// zero stays zero, and any other number becomes what it lacks to the next
/// power of 256.
pub open spec fn negated(bytes: Seq<u8>) -> nat {
    if be_value(bytes) == 0 {
        0
    } else {
        (pow256(bytes.len()) - be_value(bytes)) as nat
    }
}

proof fn lemma_complement(b: u8)
    ensures
        !b == 255 - b,
{
    assert(!b == 255 - b) by (bit_vector);
}

/// Negates, in place, the two's-complement integer that the bytes spell,
/// most significant byte first: every byte is complemented, and one is added
/// from the last byte towards the first.
pub fn twos_compliment(data: &mut [u8])
    ensures
        final(data)@.len() == old(data)@.len(),
        be_value(final(data)@) == negated(old(data)@),
{
    let ghost before = data@;
    let n = data.len();
    let mut carry = true;
    let mut i = n;
    proof {
        assert(data@.subrange(n as int, n as int) =~= Seq::<u8>::empty());
    }
    while i > 0
        invariant
            i <= n,
            n == before.len(),
            data@.len() == n,
            forall|j: int| 0 <= j < i ==> data@[j] == before[j],
            carry == (be_value(before.subrange(i as int, n as int)) == 0),
            be_value(data@.subrange(i as int, n as int)) == negated(
                before.subrange(i as int, n as int),
            ),
        decreases i,
    {
        let ghost old_tail = before.subrange(i as int, n as int);
        let ghost new_tail = data@.subrange(i as int, n as int);
        i -= 1;
        let b: u8 = !data[i];
        let byte: u8 = if carry {
            b.wrapping_add(1)
        } else {
            b
        };
        if carry {
            carry = b == 0xFF;
        }
        data[i] = byte;
        proof {
            lemma_complement(before[i as int]);
            let old_now = before.subrange(i as int, n as int);
            let new_now = data@.subrange(i as int, n as int);
            assert(old_now.drop_first() =~= old_tail);
            assert(new_now.drop_first() =~= new_tail);
            lemma_be_value_first(old_now);
            lemma_be_value_first(new_now);
            lemma_be_value_bound(old_tail);
            lemma_pow256_positive(old_tail.len());
            let p = pow256(old_tail.len());
            assert(pow256(old_now.len()) == 256 * p);
            let x = before[i as int] as int;
            let y = byte as int;
            if be_value(old_tail) == 0 {
                assert(y == (if x == 0 {
                    0
                } else {
                    256 - x
                }));
                if x != 0 {
                    assert(y * p == 256 * p - x * p && x * p > 0) by (nonlinear_arith)
                        requires
                            y == 256 - x,
                            x > 0,
                            p > 0,
                    ;
                } else {
                    assert(x * p == 0 && y * p == 0) by (nonlinear_arith)
                        requires
                            x == 0,
                            y == 0,
                    ;
                }
            } else {
                assert(y == 255 - x);
                assert(y * p == 256 * p - x * p - p) by (nonlinear_arith)
                    requires
                        y == 255 - x,
                ;
                assert(x * p >= 0) by (nonlinear_arith)
                    requires
                        x >= 0,
                        p > 0,
                ;
            }
        }
    }
    proof {
        assert(data@.subrange(0, n as int) =~= data@);
        assert(before.subrange(0, n as int) =~= before);
    }
}

/// The text of a digest read as a signed integer in two's complement, most
/// significant byte first: in base 16 and lower case, with a `-` in front
/// where the integer is negative, and without leading zeros.
pub fn signed_hex_text(digest: &[u8]) -> (text: String)
    ensures
        text@ == signed_hex(signed_value(digest@)),
{
    let negative = digest.len() > 0 && (digest[0] & 0x80) == 0x80;
    assert(negative == is_negative(digest@)) by {
        if digest@.len() > 0 {
            let b = digest@[0];
            assert(((b & 0x80) == 0x80) == (b >= 0x80)) by (bit_vector);
        }
    }
    let mut bytes = slice_to_vec(digest);
    if negative {
        twos_compliment(bytes.as_mut_slice());
    }
    proof {
        lemma_be_value_bound(digest@);
        if negative {
            lemma_be_value_first(digest@);
            lemma_pow256_positive((digest@.len() - 1) as nat);
            let p = pow256((digest@.len() - 1) as nat);
            assert(digest@[0] * p > 0) by (nonlinear_arith)
                requires
                    digest@[0] > 0,
                    p > 0,
            ;
            assert(be_value(bytes@) == -signed_value(digest@));
        } else {
            assert(be_value(bytes@) == signed_value(digest@));
        }
    }
    let mut text = String::new();
    if negative {
        push_char(&mut text, '-');
    }
    let ghost sign = text@;
    assert(sign =~= if negative {
        seq!['-']
    } else {
        Seq::<char>::empty()
    });
    let mut i: usize = 0;
    let mut started = false;
    proof {
        assert(bytes@.take(0) =~= Seq::<u8>::empty());
    }
    while i < bytes.len()
        invariant
            i <= bytes.len(),
            started == (be_value(bytes@.take(i as int)) != 0),
            text@ == sign + hex_digits(be_value(bytes@.take(i as int))),
        decreases bytes.len() - i,
    {
        let b: u8 = bytes[i];
        let hi: u8 = b >> 4;
        let lo: u8 = b & 0xF;
        proof {
            assert((b >> 4) == b / 16 && (b & 0xF) == b % 16) by (bit_vector);
            assert(bytes@.take(i + 1).drop_last() =~= bytes@.take(i as int));
            lemma_hex_digits_byte(be_value(bytes@.take(i as int)), b);
        }
        if started || hi != 0 {
            push_char(&mut text, hex_digit(hi));
            push_char(&mut text, hex_digit(lo));
            started = true;
        } else if lo != 0 {
            push_char(&mut text, hex_digit(lo));
            started = true;
        }
        i += 1;
    }
    proof {
        assert(bytes@.take(bytes@.len() as int) =~= bytes@);
        assert(Seq::<char>::empty() + hex_digits(be_value(bytes@)) =~= hex_digits(
            be_value(bytes@),
        ));
        assert(hex_digits(0) =~= Seq::<char>::empty());
    }
    if !started {
        push_char(&mut text, '0');
        assert(text@ =~= seq!['0']);
    }
    text
}

/// The identity hash that a server join proves: the SHA-1 digest of the
/// server id, the shared key and the public key, one after the other, as
/// signed hexadecimal text.
pub fn server_hash(server_id: &str, shared_key: &[u8], public_key: &[u8]) -> (text: String)
    ensures
        text@ == signed_hex(
            signed_value(sha1_hash(encode_utf8(server_id@) + shared_key@ + public_key@)),
        ),
{
    let mut data: Vec<u8> = slice_to_vec(server_id.as_bytes());
    assert(data@ == encode_utf8(server_id@));
    data.extend_from_slice(shared_key);
    data.extend_from_slice(public_key);
    assert(data@ =~= encode_utf8(server_id@) + shared_key@ + public_key@);
    let digest = sha1_digest(data.as_slice());
    signed_hex_text(digest.as_slice())
}

} // verus!
