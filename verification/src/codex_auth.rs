//! ChatGPT login: what tokens say of themselves, when they are renewed, and the
//! texts that are exchanged with the issuer and the browser. Tokens are decoded
//! for expiry and account only; no signature is checked here.
use rand::RngCore;
use vstd::prelude::*;

use crate::encoding::{
    base64_url_bytes, base64_url_decoded, base64_url_of, base64_url_text, utf8_text,
};
use crate::image::{sha256, sha256_of};
use crate::json::{
    get, i64_of, json_parsed, parse_json, put, str_of, Json, JsonView, NumberView,
};
use crate::path::{join_path, joined_path};
use crate::same::Same;
use crate::table::{lookup, map_of, Table};
use crate::text::{
    contains, decimal, decimal_text, first_line, first_of, has_prefix, lemma_first_of, occurs_in,
    same_text, split, split_on, split_words, take_line, words,
};

verus! {

/// Who issues the tokens.
pub const ISSUER: &'static str = "https://auth.openai.com";

/// Where a login starts.
pub const AUTHORIZE_ENDPOINT: &'static str = "https://auth.openai.com/oauth/authorize";

/// Where tokens are handed out.
pub const TOKEN_ENDPOINT: &'static str = "https://auth.openai.com/oauth/token";

/// The name under which the issuer knows this program.
pub const CLIENT_ID: &'static str = "app_EMoamEEZ73f0CkXaXp7hrann";

/// The account claim as one flat name.
pub const ACCOUNT_CLAIM: &'static str = "https://api.openai.com/auth.chatgpt_account_id";

/// The object that holds the account claim in nested form.
pub const ACCOUNT_CLAIM_NAMESPACE: &'static str = "https://api.openai.com/auth";

/// The account claim inside that object.
pub const ACCOUNT_CLAIM_FIELD: &'static str = "chatgpt_account_id";

/// How long before its expiry a token is renewed, in seconds.
pub const REFRESH_WINDOW_SECS: i64 = 5 * 60;

/// How long after the last renewal a token without known expiry is renewed, in
/// seconds.
pub const UNKNOWN_EXPIRY_REFRESH_SECS: i64 = 8 * 24 * 60 * 60;

/// The refusal where no account is known.
pub const NO_ACCOUNT: &'static str =
    "ChatGPT login has no usable account id; run `e-agent login` again";

/// A point in time: seconds since the start of 1970, and nanoseconds.
#[derive(Clone, Copy, Debug, PartialEq, Eq, Structural)]
pub struct Moment {
    pub secs: i64,
    pub nanos: u32,
}

impl DeepView for Moment {
    type V = Moment;

    open spec fn deep_view(&self) -> Moment {
        *self
    }
}

impl Same for Moment {
    fn same(&self, other: &Self) -> (r: bool) {
        *self == *other
    }
}

/// A point in time in nanoseconds.
pub open spec fn nanoseconds(moment: Moment) -> int {
    moment.secs * 1_000_000_000 + moment.nanos
}

/// The nanoseconds of `secs` seconds and `nanos` nanoseconds.
fn span(secs: i64, nanos: u32) -> (r: i128)
    ensures
        r == secs * 1_000_000_000 + nanos,
        -0x1_0000_0000_0000_0000_0000_0000 <= r <= 0x1_0000_0000_0000_0000_0000_0000,
{
    secs as i128 * 1_000_000_000 + nanos as i128
}

/// The tokens of a login.
#[derive(Debug, PartialEq)]
pub struct Tokens {
    pub id_token: String,
    pub access_token: String,
    pub refresh_token: String,
    pub account_id: Option<String>,
}

/// Model of [`Tokens`].
#[verifier::ext_equal]
pub struct TokensView {
    pub id_token: Seq<char>,
    pub access_token: Seq<char>,
    pub refresh_token: Seq<char>,
    pub account_id: Option<Seq<char>>,
}

impl DeepView for Tokens {
    type V = TokensView;

    open spec fn deep_view(&self) -> TokensView {
        TokensView {
            id_token: self.id_token@,
            access_token: self.access_token@,
            refresh_token: self.refresh_token@,
            account_id: self.account_id.deep_view(),
        }
    }
}

impl Clone for Tokens {
    fn clone(&self) -> (r: Self)
        ensures
            r.deep_view() == self.deep_view(),
    {
        Tokens {
            id_token: self.id_token.clone(),
            access_token: self.access_token.clone(),
            refresh_token: self.refresh_token.clone(),
            account_id: self.account_id.clone(),
        }
    }
}

impl Same for Tokens {
    fn same(&self, other: &Self) -> (r: bool) {
        self.id_token.same(&other.id_token) && self.access_token.same(&other.access_token)
            && self.refresh_token.same(&other.refresh_token) && self.account_id.same(
            &other.account_id,
        )
    }
}

/// What the auth file holds.
#[derive(Debug, PartialEq)]
pub struct AuthFile {
    pub tokens: Tokens,
    pub last_refresh: Moment,
}

/// Model of [`AuthFile`].
#[verifier::ext_equal]
pub struct AuthFileView {
    pub tokens: TokensView,
    pub last_refresh: Moment,
}

impl DeepView for AuthFile {
    type V = AuthFileView;

    open spec fn deep_view(&self) -> AuthFileView {
        AuthFileView { tokens: self.tokens.deep_view(), last_refresh: self.last_refresh }
    }
}

impl Clone for AuthFile {
    fn clone(&self) -> (r: Self)
        ensures
            r.deep_view() == self.deep_view(),
    {
        AuthFile { tokens: self.tokens.clone(), last_refresh: self.last_refresh }
    }
}

impl Same for AuthFile {
    fn same(&self, other: &Self) -> (r: bool) {
        self.tokens.same(&other.tokens) && self.last_refresh == other.last_refresh
    }
}

/// Tokens as the issuer hands them out; any of them may be missing.
#[derive(Debug, PartialEq)]
pub struct TokenResponse {
    pub id_token: Option<String>,
    pub access_token: Option<String>,
    pub refresh_token: Option<String>,
}

/// Model of [`TokenResponse`].
#[verifier::ext_equal]
pub struct TokenResponseView {
    pub id_token: Option<Seq<char>>,
    pub access_token: Option<Seq<char>>,
    pub refresh_token: Option<Seq<char>>,
}

impl DeepView for TokenResponse {
    type V = TokenResponseView;

    open spec fn deep_view(&self) -> TokenResponseView {
        TokenResponseView {
            id_token: self.id_token.deep_view(),
            access_token: self.access_token.deep_view(),
            refresh_token: self.refresh_token.deep_view(),
        }
    }
}

/// What a token says of itself: the account and the expiry in seconds since the
/// start of 1970.
#[derive(Debug, PartialEq)]
pub struct JwtMetadata {
    pub account_id: Option<String>,
    pub exp: Option<i64>,
}

/// Model of [`JwtMetadata`].
#[verifier::ext_equal]
pub struct MetadataView {
    pub account_id: Option<Seq<char>>,
    pub exp: Option<i64>,
}

impl DeepView for JwtMetadata {
    type V = MetadataView;

    open spec fn deep_view(&self) -> MetadataView {
        MetadataView { account_id: self.account_id.deep_view(), exp: self.exp }
    }
}

/// The first second of the calendar, counted from the start of 1970: the start
/// of the year -262143.
pub const CALENDAR_START: i64 = -8_334_601_228_800;

/// The last second of the calendar, counted from the start of 1970: the end of
/// the year 262142.
pub const CALENDAR_END: i64 = 8_210_266_876_799;

/// Whether the calendar reaches a point in time, given in seconds since the
/// start of 1970.
pub open spec fn in_calendar(secs: i64) -> bool {
    CALENDAR_START <= secs <= CALENDAR_END
}

/// `chrono::DateTime::from_timestamp`: it gives the point in time back exactly
/// where it lies between the first and the last day that `chrono` has.
#[verifier::external_body]
fn calendar_seconds(secs: i64) -> (r: Option<i64>)
    ensures
        r is Some <==> in_calendar(secs),
        r matches Some(known) ==> known == secs,
{
    chrono::DateTime::from_timestamp(secs, 0).map(|time| time.timestamp())
}

/// A text that is not empty.
pub open spec fn filled(text: Option<Seq<char>>) -> Option<Seq<char>> {
    match text {
        Some(text) if text.len() > 0 => Some(text),
        _ => None,
    }
}

fn fill(text: Option<String>) -> (r: Option<String>)
    ensures
        r.deep_view() == filled(text.deep_view()),
{
    match text {
        Some(text) => if text.as_str().is_empty() {
            None
        } else {
            Some(text)
        },
        None => None,
    }
}

/// The account that a token's claims name: the flat claim counts before the
/// nested one, and an empty one not at all.
pub open spec fn claimed_account(claims: JsonView) -> Option<Seq<char>> {
    match filled(str_of(get(claims, ACCOUNT_CLAIM@))) {
        Some(account) => Some(account),
        None => match get(claims, ACCOUNT_CLAIM_NAMESPACE@) {
            Some(nested) => filled(str_of(get(nested, ACCOUNT_CLAIM_FIELD@))),
            None => None,
        },
    }
}

/// What a token with these claims says of itself.
pub open spec fn claims_metadata(claims: JsonView) -> MetadataView {
    MetadataView {
        account_id: claimed_account(claims),
        exp: match i64_of(get(claims, "exp"@)) {
            Some(secs) if in_calendar(secs) => Some(secs),
            _ => None,
        },
    }
}

/// The account that a token's claims name.
pub fn account_claim(claims: &Json) -> (r: Option<String>)
    ensures
        r.deep_view() == claimed_account(claims.deep_view()),
{
    let flat = fill(claims.str_field(ACCOUNT_CLAIM));
    if flat.is_some() {
        return flat;
    }
    match claims.get(ACCOUNT_CLAIM_NAMESPACE) {
        Some(nested) => fill(nested.str_field(ACCOUNT_CLAIM_FIELD)),
        None => None,
    }
}

/// What a token with these claims says of itself.
pub fn read_claims(claims: &Json) -> (r: JwtMetadata)
    ensures
        r.deep_view() == claims_metadata(claims.deep_view()),
{
    let exp: Option<i64> = match claims.i64_field("exp") {
        Some(secs) => calendar_seconds(secs),
        None => None,
    };
    JwtMetadata { account_id: account_claim(claims), exp }
}

/// The document that the bytes spell, where they are UTF-8 and spell one.
pub open spec fn document_of(bytes: Option<Seq<u8>>) -> Option<JsonView> {
    match bytes {
        Some(bytes) if vstd::utf8::valid_utf8(bytes) => match json_parsed(
            vstd::utf8::decode_utf8(bytes),
        ) {
            Ok(json) => Some(json),
            Err(_) => None,
        },
        _ => None,
    }
}

/// The claims of a token: what its second part, between dots, spells.
pub open spec fn token_claims(token: Seq<char>) -> Option<JsonView> {
    let parts = split_on(token, '.');
    if parts.len() < 2 {
        None
    } else {
        document_of(base64_url_decoded(parts[1]))
    }
}

/// What a token says of itself, where it can be read.
pub open spec fn token_metadata(token: Seq<char>) -> Option<MetadataView> {
    match token_claims(token) {
        Some(claims) => Some(claims_metadata(claims)),
        None => None,
    }
}

/// What a token says of itself, where it can be read.
pub fn jwt_metadata(token: &str) -> (r: Option<JwtMetadata>)
    ensures
        r.deep_view() == token_metadata(token@),
{
    let parts = split(token, '.');
    let ghost views = parts.deep_view();
    assert(views.len() == parts@.len());
    if parts.len() < 2 {
        return None;
    }
    assert(views[1] == parts@[1].deep_view());
    match base64_url_bytes(parts[1].as_str()) {
        Some(bytes) => {
            assert(bytes.deep_view() =~= bytes@);
            match utf8_text(bytes) {
                Some(text) => match parse_json(text.as_str()) {
                    Ok(claims) => Some(read_claims(&claims)),
                    Err(_) => None,
                },
                None => None,
            }
        },
        None => None,
    }
}

/// The account that a token names.
pub open spec fn token_account(token: Seq<char>) -> Option<Seq<char>> {
    match token_metadata(token) {
        Some(metadata) => metadata.account_id,
        None => None,
    }
}

/// The account of a login: the stored one, else the one that the id token
/// names, else the one that the access token names.
pub open spec fn account_of(tokens: TokensView) -> Option<Seq<char>> {
    match filled(tokens.account_id) {
        Some(account) => Some(account),
        None => match token_account(tokens.id_token) {
            Some(account) => Some(account),
            None => token_account(tokens.access_token),
        },
    }
}

/// The account of a login.
pub fn usable_account(tokens: &Tokens) -> (r: Result<String, String>)
    ensures
        match r {
            Ok(account) => account_of(tokens.deep_view()) == Some(account@),
            Err(error) => account_of(tokens.deep_view()) is None && error@ == NO_ACCOUNT@,
        },
{
    if let Some(account) = fill(tokens.account_id.clone()) {
        return Ok(account);
    }
    if let Some(metadata) = jwt_metadata(tokens.id_token.as_str()) {
        if let Some(account) = metadata.account_id {
            return Ok(account);
        }
    }
    if let Some(metadata) = jwt_metadata(tokens.access_token.as_str()) {
        if let Some(account) = metadata.account_id {
            return Ok(account);
        }
    }
    Err(NO_ACCOUNT.to_owned())
}

/// Whether a login is to be renewed at `now`, by the expiry of its access token
/// or, where that is not known, by its last renewal.
pub open spec fn due(exp: Option<i64>, last_refresh: Moment, now: Moment) -> bool {
    match exp {
        Some(secs) => secs * 1_000_000_000 <= nanoseconds(now) + REFRESH_WINDOW_SECS
            * 1_000_000_000,
        None => nanoseconds(last_refresh) <= nanoseconds(now) - UNKNOWN_EXPIRY_REFRESH_SECS
            * 1_000_000_000,
    }
}

/// The expiry of a token, where it is known.
pub open spec fn token_expiry(token: Seq<char>) -> Option<i64> {
    match token_metadata(token) {
        Some(metadata) => metadata.exp,
        None => None,
    }
}

/// Whether a login is to be renewed at `now`.
pub open spec fn is_due(data: AuthFileView, now: Moment) -> bool {
    due(token_expiry(data.tokens.access_token), data.last_refresh, now)
}

/// Whether a login is to be renewed at `now`, given the expiry of its access
/// token.
pub fn due_at(exp: Option<i64>, last_refresh: Moment, now: Moment) -> (r: bool)
    ensures
        r == due(exp, last_refresh, now),
{
    let at: i128 = span(now.secs, now.nanos);
    match exp {
        Some(secs) => span(secs, 0) <= at + span(REFRESH_WINDOW_SECS, 0),
        None => span(last_refresh.secs, last_refresh.nanos) <= at - span(
            UNKNOWN_EXPIRY_REFRESH_SECS,
            0,
        ),
    }
}

/// Whether a login is to be renewed at `now`.
pub fn needs_refresh(data: &AuthFile, now: Moment) -> (r: bool)
    ensures
        r == is_due(data.deep_view(), now),
{
    let exp: Option<i64> = match jwt_metadata(data.tokens.access_token.as_str()) {
        Some(metadata) => metadata.exp,
        None => None,
    };
    due_at(exp, data.last_refresh, now)
}

/// Why a renewal was refused for good.
#[derive(Clone, Copy, Debug, PartialEq, Eq, Structural)]
pub enum Refusal {
    /// The refresh token has expired.
    Expired,
    /// Another process has used the refresh token.
    Reused,
    /// The login was revoked.
    Revoked,
}

/// The lasting refusal that an answer's body tells of.
pub open spec fn refusal_in(body: Seq<char>) -> Option<Refusal> {
    if occurs_in(body, "refresh_token_expired"@) {
        Some(Refusal::Expired)
    } else if occurs_in(body, "refresh_token_reused"@) {
        Some(Refusal::Reused)
    } else if occurs_in(body, "refresh_token_invalidated"@) {
        Some(Refusal::Revoked)
    } else {
        None
    }
}

/// The lasting refusal that an answer's body tells of.
pub fn permanent_refresh_error(body: &str) -> (r: Option<Refusal>)
    ensures
        r == refusal_in(body@),
{
    if contains(body, "refresh_token_expired") {
        Some(Refusal::Expired)
    } else if contains(body, "refresh_token_reused") {
        Some(Refusal::Reused)
    } else if contains(body, "refresh_token_invalidated") {
        Some(Refusal::Revoked)
    } else {
        None
    }
}

/// The answer to a renewal: its status, the status as it is written, and the
/// tokens in its body, where the body spells such.
#[derive(Debug, PartialEq)]
pub struct TokenAnswer {
    pub status: u16,
    pub status_text: String,
    pub body: String,
    pub returned: Option<TokenResponse>,
}

/// Model of [`TokenAnswer`].
#[verifier::ext_equal]
pub struct TokenAnswerView {
    pub status: u16,
    pub status_text: Seq<char>,
    pub body: Seq<char>,
    pub returned: Option<TokenResponseView>,
}

impl DeepView for TokenAnswer {
    type V = TokenAnswerView;

    open spec fn deep_view(&self) -> TokenAnswerView {
        TokenAnswerView {
            status: self.status,
            status_text: self.status_text@,
            body: self.body@,
            returned: self.returned.deep_view(),
        }
    }
}

/// The error of an answer that refuses a renewal: of the body it tells only the
/// kind of a lasting refusal.
pub open spec fn refusal_text(
    status: u16,
    status_text: Seq<char>,
    refusal: Option<Refusal>,
) -> Seq<char> {
    match refusal {
        Some(Refusal::Expired) => "ChatGPT login has expired; run `e-agent login`"@,
        Some(Refusal::Reused) =>
            "ChatGPT refresh token was reused by another process; run `e-agent login`"@,
        Some(Refusal::Revoked) => "ChatGPT login was revoked; run `e-agent login`"@,
        None => if status == 401 {
            "ChatGPT login has expired or was revoked; run `e-agent login`"@
        } else {
            "ChatGPT token refresh failed with HTTP "@ + status_text
        },
    }
}

/// What a renewal brought: the tokens, or the error. No answer stands for a
/// request that failed on its way.
pub open spec fn renewal(answer: Option<TokenAnswerView>) -> Result<TokenResponseView, Seq<char>> {
    match answer {
        None => Err("ChatGPT token refresh request failed"@),
        Some(answer) => if !(200 <= answer.status <= 299) {
            Err(refusal_text(answer.status, answer.status_text, refusal_in(answer.body)))
        } else {
            match answer.returned {
                Some(returned) => Ok(returned),
                None => Err("cannot decode ChatGPT token refresh response"@),
            }
        },
    }
}

/// A result as its model.
pub open spec fn renewal_result(
    r: Result<TokenResponse, String>,
) -> Result<TokenResponseView, Seq<char>> {
    match r {
        Ok(returned) => Ok(returned.deep_view()),
        Err(error) => Err(error@),
    }
}

/// What a renewal brought: the tokens, or the error.
pub fn read_renewal(answer: Option<TokenAnswer>) -> (r: Result<TokenResponse, String>)
    ensures
        renewal_result(r) == renewal(answer.deep_view()),
{
    let answer = match answer {
        None => {
            return Err("ChatGPT token refresh request failed".to_owned());
        },
        Some(answer) => answer,
    };
    if answer.status < 200 || answer.status > 299 {
        let error = match permanent_refresh_error(answer.body.as_str()) {
            Some(Refusal::Expired) =>
                "ChatGPT login has expired; run `e-agent login`".to_owned(),
            Some(Refusal::Reused) =>
                "ChatGPT refresh token was reused by another process; run `e-agent login`"
                .to_owned(),
            Some(Refusal::Revoked) => "ChatGPT login was revoked; run `e-agent login`".to_owned(),
            None => if answer.status == 401 {
                "ChatGPT login has expired or was revoked; run `e-agent login`".to_owned()
            } else {
                let mut text = "ChatGPT token refresh failed with HTTP ".to_owned();
                text.push_str(answer.status_text.as_str());
                text
            },
        };
        return Err(error);
    }
    match answer.returned {
        Some(returned) => Ok(returned),
        None => Err("cannot decode ChatGPT token refresh response".to_owned()),
    }
}

/// The body of a request for renewal.
pub open spec fn refresh_request(refresh_token: Seq<char>) -> JsonView {
    JsonView::Object(
        seq![
            ("client_id"@, JsonView::Str(CLIENT_ID@)),
            ("grant_type"@, JsonView::Str("refresh_token"@)),
            ("refresh_token"@, JsonView::Str(refresh_token)),
        ],
    )
}

/// The body of a request for renewal.
pub fn refresh_body(refresh_token: &str) -> (r: Json)
    ensures
        r.deep_view() == refresh_request(refresh_token@),
{
    let mut fields: Vec<(String, Json)> = Vec::new();
    put(&mut fields, "client_id", Json::string(CLIENT_ID));
    put(&mut fields, "grant_type", Json::string("refresh_token"));
    put(&mut fields, "refresh_token", Json::string(refresh_token));
    assert(fields.deep_view() =~= refresh_request(refresh_token@)->Object_0);
    Json::object(fields)
}

/// A login in memory, beside what was last seen in the auth file.
#[derive(Debug, PartialEq)]
pub struct CodexAuth {
    pub memory: AuthFile,
    pub observed: AuthFile,
}

/// Model of [`CodexAuth`].
#[verifier::ext_equal]
pub struct AuthView {
    pub memory: AuthFileView,
    pub observed: AuthFileView,
}

impl DeepView for CodexAuth {
    type V = AuthView;

    open spec fn deep_view(&self) -> AuthView {
        AuthView { memory: self.memory.deep_view(), observed: self.observed.deep_view() }
    }
}

/// What is done next about a renewal.
#[derive(Debug, PartialEq)]
pub enum RefreshAction {
    /// The login in memory is to be used.
    Done,
    /// The token is to be exchanged, the auth file read again, and both handed
    /// to [`CodexAuth::finish_exchange`].
    Exchange { refresh_token: String },
    /// The login in memory is to be written to the auth file, and the outcome
    /// handed to [`CodexAuth::finish_save`].
    Save,
    /// The renewal has failed.
    Fail { error: String },
}

/// Model of [`RefreshAction`].
#[verifier::ext_equal]
pub enum ActionView {
    Done,
    Exchange { refresh_token: Seq<char> },
    Save,
    Fail { error: Seq<char> },
}

impl DeepView for RefreshAction {
    type V = ActionView;

    open spec fn deep_view(&self) -> ActionView {
        match self {
            RefreshAction::Done => ActionView::Done,
            RefreshAction::Exchange { refresh_token } => ActionView::Exchange {
                refresh_token: refresh_token@,
            },
            RefreshAction::Save => ActionView::Save,
            RefreshAction::Fail { error } => ActionView::Fail { error: error@ },
        }
    }
}

/// Exchanges that one renewal may take.
pub const EXCHANGE_BUDGET: u32 = 2;

/// Whether a login can be used at all.
pub open spec fn usable_login(data: AuthFileView) -> bool {
    data.tokens.access_token.len() > 0 && data.tokens.refresh_token.len() > 0
}

/// Whether the auth file holds a login that replaces the one in memory: it can
/// be used and is not what was last seen there.
pub open spec fn replaced(auth: AuthView, disk: Option<AuthFileView>) -> bool {
    match disk {
        Some(data) => usable_login(data) && data != auth.observed,
        None => false,
    }
}

/// The login after a look at the auth file.
pub open spec fn after_look(auth: AuthView, disk: Option<AuthFileView>) -> AuthView {
    match disk {
        Some(data) if replaced(auth, disk) => AuthView { memory: data, observed: data },
        _ => auth,
    }
}

/// The request for the token in memory.
pub open spec fn exchange_of(auth: AuthView) -> ActionView {
    ActionView::Exchange { refresh_token: auth.memory.tokens.refresh_token }
}

/// Whether a renewal takes place although none is due: one is asked for, and it
/// is not for a token that has been replaced meanwhile.
pub open spec fn forced(auth: AuthView, force: bool, rejected: Option<Seq<char>>) -> bool {
    force && match rejected {
        Some(token) => auth.memory.tokens.access_token == token,
        None => true,
    }
}

/// The first step of a renewal.
pub open spec fn begun(
    auth: AuthView,
    force: bool,
    rejected: Option<Seq<char>>,
    disk: Option<AuthFileView>,
    now: Moment,
) -> (AuthView, ActionView) {
    let seen = after_look(auth, disk);
    if forced(seen, force, rejected) || is_due(seen.memory, now) {
        (seen, exchange_of(seen))
    } else {
        (seen, ActionView::Done)
    }
}

/// A token that is taken over where the issuer hands out a new one.
pub open spec fn taken_over(returned: Option<Seq<char>>, kept: Seq<char>) -> Seq<char> {
    match filled(returned) {
        Some(text) => text,
        None => kept,
    }
}

/// A login after the issuer has answered: what it does not name stays.
pub open spec fn rotated(
    data: AuthFileView,
    returned: TokenResponseView,
    now: Moment,
) -> AuthFileView {
    AuthFileView {
        tokens: TokensView {
            id_token: taken_over(returned.id_token, data.tokens.id_token),
            access_token: taken_over(returned.access_token, data.tokens.access_token),
            refresh_token: taken_over(returned.refresh_token, data.tokens.refresh_token),
            account_id: data.tokens.account_id,
        },
        last_refresh: now,
    }
}

/// The step after the exchange number `exchanges`.
pub open spec fn exchanged(
    auth: AuthView,
    exchanges: nat,
    outcome: Result<TokenResponseView, Seq<char>>,
    disk: Option<AuthFileView>,
    now: Moment,
) -> (AuthView, ActionView) {
    let seen = after_look(auth, disk);
    if replaced(auth, disk) {
        if !is_due(seen.memory, now) {
            (seen, ActionView::Done)
        } else if exchanges < EXCHANGE_BUDGET {
            (seen, exchange_of(seen))
        } else {
            match outcome {
                Ok(_) => (seen, ActionView::Done),
                Err(error) => (seen, ActionView::Fail { error }),
            }
        }
    } else {
        match outcome {
            Ok(returned) => (
                AuthView { memory: rotated(auth.memory, returned, now), observed: auth.observed },
                ActionView::Save,
            ),
            Err(error) => (auth, ActionView::Fail { error }),
        }
    }
}

/// The step after the login was written to the auth file, or was not.
pub open spec fn saved(
    auth: AuthView,
    outcome: Result<(), Seq<char>>,
) -> (AuthView, ActionView) {
    match outcome {
        Ok(_) => (AuthView { memory: auth.memory, observed: auth.memory }, ActionView::Done),
        Err(error) => (auth, ActionView::Fail { error }),
    }
}

impl CodexAuth {
    /// The login that the auth file holds.
    pub fn from_file(data: AuthFile) -> (r: CodexAuth)
        ensures
            r.deep_view() == (AuthView { memory: data.deep_view(), observed: data.deep_view() }),
    {
        CodexAuth { memory: data.clone(), observed: data }
    }

    /// The access token and the account of the login in memory, without a look
    /// at its expiry.
    pub fn current_access_token_and_account(&self) -> (r: Result<(String, String), String>)
        ensures
            match r {
                Ok(pair) => pair.0@ == self.memory.tokens.access_token@ && account_of(
                    self.memory.tokens.deep_view(),
                ) == Some(pair.1@),
                Err(error) => account_of(self.memory.tokens.deep_view()) is None && error@
                    == NO_ACCOUNT@,
            },
    {
        match usable_account(&self.memory.tokens) {
            Ok(account) => Ok((self.memory.tokens.access_token.clone(), account)),
            Err(error) => Err(error),
        }
    }

    /// Take over the login in the auth file where it replaces the one in memory.
    fn look(&mut self, disk: Option<AuthFile>) -> (r: bool)
        ensures
            final(self).deep_view() == after_look(old(self).deep_view(), disk.deep_view()),
            r == replaced(old(self).deep_view(), disk.deep_view()),
    {
        match disk {
            Some(data) => {
                if !data.tokens.access_token.as_str().is_empty()
                    && !data.tokens.refresh_token.as_str().is_empty() && !data.same(
                    &self.observed,
                ) {
                    self.memory = data.clone();
                    self.observed = data;
                    true
                } else {
                    false
                }
            },
            None => false,
        }
    }

    /// Begin a renewal, with the auth file as it is now. With `force` it takes
    /// place although none is due, but not where `rejected` is no longer the
    /// token in memory.
    pub fn refresh_if_needed(
        &mut self,
        force: bool,
        rejected: Option<&str>,
        disk: Option<AuthFile>,
        now: Moment,
    ) -> (r: RefreshAction)
        ensures
            (final(self).deep_view(), r.deep_view()) == begun(
                old(self).deep_view(),
                force,
                rejected.deep_view(),
                disk.deep_view(),
                now,
            ),
    {
        self.look(disk);
        let forced = force && match rejected {
            Some(token) => same_text(self.memory.tokens.access_token.as_str(), token),
            None => true,
        };
        if forced || needs_refresh(&self.memory, now) {
            RefreshAction::Exchange { refresh_token: self.memory.tokens.refresh_token.clone() }
        } else {
            RefreshAction::Done
        }
    }

    /// Begin a renewal because the server rejected a token.
    pub fn refresh_after_unauthorized(
        &mut self,
        rejected_access_token: &str,
        disk: Option<AuthFile>,
        now: Moment,
    ) -> (r: RefreshAction)
        ensures
            (final(self).deep_view(), r.deep_view()) == begun(
                old(self).deep_view(),
                true,
                Some(rejected_access_token@),
                disk.deep_view(),
                now,
            ),
    {
        self.refresh_if_needed(true, Some(rejected_access_token), disk, now)
    }

    /// Go on after the exchange number `exchanges`, with the auth file as it is
    /// now.
    pub fn finish_exchange(
        &mut self,
        exchanges: u32,
        outcome: Result<TokenResponse, String>,
        disk: Option<AuthFile>,
        now: Moment,
    ) -> (r: RefreshAction)
        ensures
            (final(self).deep_view(), r.deep_view()) == exchanged(
                old(self).deep_view(),
                exchanges as nat,
                renewal_result(outcome),
                disk.deep_view(),
                now,
            ),
    {
        if self.look(disk) {
            if !needs_refresh(&self.memory, now) {
                return RefreshAction::Done;
            }
            if exchanges < EXCHANGE_BUDGET {
                return RefreshAction::Exchange {
                    refresh_token: self.memory.tokens.refresh_token.clone(),
                };
            }
            return match outcome {
                Ok(_) => RefreshAction::Done,
                Err(error) => RefreshAction::Fail { error },
            };
        }
        match outcome {
            Ok(returned) => {
                if let Some(token) = fill(returned.id_token) {
                    self.memory.tokens.id_token = token;
                }
                if let Some(token) = fill(returned.access_token) {
                    self.memory.tokens.access_token = token;
                }
                if let Some(token) = fill(returned.refresh_token) {
                    self.memory.tokens.refresh_token = token;
                }
                self.memory.last_refresh = now;
                RefreshAction::Save
            },
            Err(error) => RefreshAction::Fail { error },
        }
    }

    /// Go on after the login was written to the auth file, or was not.
    pub fn finish_save(&mut self, outcome: Result<(), String>) -> (r: RefreshAction)
        ensures
            (final(self).deep_view(), r.deep_view()) == saved(
                old(self).deep_view(),
                match outcome {
                    Ok(_) => Ok(()),
                    Err(error) => Err(error@),
                },
            ),
    {
        match outcome {
            Ok(_) => {
                self.observed = self.memory.clone();
                RefreshAction::Done
            },
            Err(error) => RefreshAction::Fail { error },
        }
    }
}

/// The auth file, in the directories that the environment names.
pub fn auth_path(config_home: Option<&str>, home: Option<&str>) -> (r: Result<String, String>)
    ensures
        match config_home {
            Some(dir) => r matches Ok(path) && path@ == joined_path(dir@, "e-agent/auth.json"@),
            None => match home {
                Some(dir) => r matches Ok(path) && path@ == joined_path(
                    dir@,
                    ".config/e-agent/auth.json"@,
                ),
                None => r matches Err(error) && error@
                    == "cannot locate ChatGPT auth storage: set XDG_CONFIG_HOME or HOME"@,
            },
        },
{
    match config_home {
        Some(dir) => Ok(join_path(dir, "e-agent/auth.json")),
        None => match home {
            Some(dir) => Ok(join_path(dir, ".config/e-agent/auth.json")),
            None => Err(
                "cannot locate ChatGPT auth storage: set XDG_CONFIG_HOME or HOME".to_owned(),
            ),
        },
    }
}

/// Tries to find a free name for a temporary file beside the auth file.
pub const TEMPORARY_ATTEMPTS: u32 = 16;

/// `rand::rng().fill_bytes`: as many bytes as are asked for. Which ones is left
/// to chance.
#[verifier::external_body]
fn random_bytes(count: usize) -> (r: Vec<u8>)
    ensures
        r@.len() == count,
{
    let mut bytes = vec![0u8; count];
    rand::rng().fill_bytes(&mut bytes);
    bytes
}

/// The name of a temporary file, from what sets it apart.
pub open spec fn temporary_of(suffix: Seq<u8>) -> Seq<char> {
    ".auth."@ + base64_url_of(suffix) + ".tmp"@
}

/// The name of a temporary file, from what sets it apart.
pub fn temporary_name(suffix: &[u8]) -> (r: String)
    ensures
        r@ == temporary_of(suffix@),
{
    let mut name = ".auth.".to_owned();
    name.push_str(base64_url_text(suffix).as_str());
    name.push_str(".tmp");
    name
}

/// A name for a temporary file, set apart by 16 random bytes.
pub fn fresh_temporary_name() -> (r: String)
    ensures
        exists|suffix: Seq<u8>| suffix.len() == 16 && r@ == #[trigger] temporary_of(suffix),
{
    let suffix = random_bytes(16);
    temporary_name(suffix.as_slice())
}

/// The secrets of one login: a random text, its digest, which the issuer is
/// shown first, and a text by which the answer is known.
#[derive(Debug, PartialEq)]
pub struct Pkce {
    pub verifier: String,
    pub challenge: String,
    pub state: String,
}

/// Model of [`Pkce`].
#[verifier::ext_equal]
pub struct PkceView {
    pub verifier: Seq<char>,
    pub challenge: Seq<char>,
    pub state: Seq<char>,
}

impl DeepView for Pkce {
    type V = PkceView;

    open spec fn deep_view(&self) -> PkceView {
        PkceView { verifier: self.verifier@, challenge: self.challenge@, state: self.state@ }
    }
}

impl Clone for Pkce {
    fn clone(&self) -> (r: Self)
        ensures
            r.deep_view() == self.deep_view(),
    {
        Pkce {
            verifier: self.verifier.clone(),
            challenge: self.challenge.clone(),
            state: self.state.clone(),
        }
    }
}

/// The challenge for a verifier: the SHA-256 digest of its bytes, in base64 for
/// URLs.
pub open spec fn challenge_of(verifier: Seq<char>) -> Seq<char> {
    base64_url_of(sha256_of(vstd::utf8::encode_utf8(verifier)))
}

impl Pkce {
    /// The secrets that these random bytes give.
    pub fn from_bytes(verifier: &[u8], state: &[u8]) -> (r: Pkce)
        ensures
            r.deep_view() == secrets_of(verifier@, state@),
            r.verifier@.len() == (4 * verifier@.len() + 2) / 3,
            r.challenge@.len() == 43,
            r.state@.len() == (4 * state@.len() + 2) / 3,
    {
        let verifier = base64_url_text(verifier);
        let digest = sha256(verifier.as_str().as_bytes());
        let challenge = base64_url_text(digest.as_slice());
        let state = base64_url_text(state);
        Pkce { verifier, challenge, state }
    }

    /// Fresh secrets, from 64 and 32 random bytes.
    pub fn new() -> (r: Pkce)
        ensures
            made_from_bytes(r.deep_view()),
            r.verifier@.len() == 86,
            r.state@.len() == 43,
    {
        let verifier = random_bytes(64);
        let state = random_bytes(32);
        let r = Pkce::from_bytes(verifier.as_slice(), state.as_slice());
        assert(r.deep_view() == secrets_of(verifier@, state@));
        r
    }
}

/// The secrets that these bytes give.
pub open spec fn secrets_of(verifier: Seq<u8>, state: Seq<u8>) -> PkceView {
    PkceView {
        verifier: base64_url_of(verifier),
        challenge: challenge_of(base64_url_of(verifier)),
        state: base64_url_of(state),
    }
}

/// Whether secrets come from 64 bytes and 32 bytes.
pub open spec fn made_from_bytes(pkce: PkceView) -> bool {
    exists|verifier: Seq<u8>, state: Seq<u8>|
        verifier.len() == 64 && state.len() == 32 && pkce == #[trigger] secrets_of(verifier, state)
}

impl Default for Pkce {
    fn default() -> (r: Self)
        ensures
            made_from_bytes(r.deep_view()),
            r.verifier@.len() == 86,
            r.state@.len() == 43,
    {
        Pkce::new()
    }
}

/// The address of a page with parameters added to it.
pub uninterp spec fn url_with_parameters_of(
    base: Seq<char>,
    parameters: Seq<(Seq<char>, Seq<char>)>,
) -> Seq<char>;

/// The path and the decoded query parameters of a URL; nothing where the text is
/// no URL.
pub uninterp spec fn url_parts_of(text: Seq<char>) -> Option<
    (Seq<char>, Seq<(Seq<char>, Seq<char>)>),
>;

/// Where the host ends in an address that begins with `https://`.
pub open spec fn host_end(address: Seq<char>) -> int {
    8 + first_of(address.skip(8), '/')
}

/// The host of an address that begins with `https://`.
pub open spec fn address_host(address: Seq<char>) -> Seq<char> {
    address.subrange(8, host_end(address))
}

/// What stands behind the host in an address that begins with `https://`.
pub open spec fn address_path(address: Seq<char>) -> Seq<char> {
    address.skip(host_end(address))
}

/// A small letter.
pub open spec fn is_small(c: char) -> bool {
    'a' <= c <= 'z'
}

/// Words of small letters with single dots between them.
pub open spec fn plain_host(host: Seq<char>) -> bool {
    &&& host.len() > 0
    &&& is_small(host[0])
    &&& is_small(host.last())
    &&& forall|i: int| 0 <= i < host.len() ==> is_small(#[trigger] host[i]) || host[i] == '.'
    &&& forall|i: int, j: int|
        0 <= i < j < host.len() && j == i + 1 ==> #[trigger] host[i] != '.' || #[trigger] host[j] != '.'
}

/// An address that there is nothing to change in: `https://`, a plain host, and a
/// path of small letters, without parameters.
pub open spec fn plain_address(address: Seq<char>) -> bool {
    &&& has_prefix(address, "https://"@)
    &&& address.len() <= u16::MAX
    &&& host_end(address) < address.len()
    &&& plain_host(address_host(address))
    &&& forall|i: int|
        0 <= i < address_path(address).len() ==> is_small(#[trigger] address_path(address)[i])
            || address_path(address)[i] == '/'
}

/// `url::Url::parse`, with parameters added by `query_pairs_mut().extend_pairs`:
/// on a plain address it succeeds, the URL is a function of the address and the
/// parameters, and, where it is no longer than URLs may be, reading it gives the
/// path of the address and the parameters back.
#[verifier::external_body]
fn url_with_parameters(base: &str, parameters: &Vec<(String, String)>) -> (r: Option<String>)
    requires
        plain_address(base@),
    ensures
        r.deep_view() == Some(url_with_parameters_of(base@, parameters.deep_view())),
        r matches Some(text) ==> text@.len() <= u32::MAX ==> url_parts_of(text@) == Some(
            (address_path(base@), parameters.deep_view()),
        ),
{
    let mut url = url::Url::parse(base).ok()?;
    url.query_pairs_mut().extend_pairs(parameters);
    Some(url.to_string())
}

/// `url::Url::parse`, `path` and `query_pairs`: the outcome is a function of the
/// text.
#[verifier::external_body]
fn url_parts(text: &str) -> (r: Option<(String, Vec<(String, String)>)>)
    ensures
        r.deep_view() == url_parts_of(text@),
{
    let url = url::Url::parse(text).ok()?;
    Some((url.path().to_owned(), url.query_pairs().into_owned().collect()))
}

/// What a login asks for.
pub const SCOPE: &'static str =
    "openid profile email offline_access api.connectors.read api.connectors.invoke";

/// The parameters of a login.
pub open spec fn login_parameters(
    redirect_uri: Seq<char>,
    pkce: PkceView,
) -> Seq<(Seq<char>, Seq<char>)> {
    seq![
        ("response_type"@, "code"@),
        ("client_id"@, CLIENT_ID@),
        ("redirect_uri"@, redirect_uri),
        ("scope"@, SCOPE@),
        ("code_challenge"@, pkce.challenge),
        ("code_challenge_method"@, "S256"@),
        ("id_token_add_organizations"@, "true"@),
        ("codex_cli_simplified_flow"@, "true"@),
        ("state"@, pkce.state),
        ("originator"@, "codex_cli_rs"@),
    ]
}

/// Append a parameter.
fn add_pair(pairs: &mut Vec<(String, String)>, key: &str, value: &str)
    ensures
        final(pairs).deep_view() == old(pairs).deep_view().push((key@, value@)),
{
    let ghost before = pairs.deep_view();
    pairs.push((key.to_owned(), value.to_owned()));
    assert(pairs.deep_view() =~= before.push((key@, value@)));
}

proof fn lemma_login_page_is_plain()
    ensures
        plain_address(AUTHORIZE_ENDPOINT@),
        address_path(AUTHORIZE_ENDPOINT@) == "/oauth/authorize"@,
{
    reveal_strlit("https://auth.openai.com/oauth/authorize");
    reveal_strlit("https://");
    reveal_strlit("/oauth/authorize");
    let address = AUTHORIZE_ENDPOINT@;
    assert(address.take(8) =~= "https://"@);
    lemma_first_of(address.skip(8), '/', 15);
    assert(address_path(address) =~= "/oauth/authorize"@);
}

/// The URL that the user is sent to for a login.
pub fn authorize_url(redirect_uri: &str, pkce: &Pkce) -> (r: Result<String, String>)
    ensures
        text_result(r) == Ok::<Seq<char>, Seq<char>>(
            url_with_parameters_of(
                AUTHORIZE_ENDPOINT@,
                login_parameters(redirect_uri@, pkce.deep_view()),
            ),
        ),
        r matches Ok(text) ==> text@.len() <= u32::MAX ==> url_parts_of(text@) == Some(
            ("/oauth/authorize"@, login_parameters(redirect_uri@, pkce.deep_view())),
        ),
{
    let mut pairs: Vec<(String, String)> = Vec::new();
    add_pair(&mut pairs, "response_type", "code");
    add_pair(&mut pairs, "client_id", CLIENT_ID);
    add_pair(&mut pairs, "redirect_uri", redirect_uri);
    add_pair(&mut pairs, "scope", SCOPE);
    add_pair(&mut pairs, "code_challenge", pkce.challenge.as_str());
    add_pair(&mut pairs, "code_challenge_method", "S256");
    add_pair(&mut pairs, "id_token_add_organizations", "true");
    add_pair(&mut pairs, "codex_cli_simplified_flow", "true");
    add_pair(&mut pairs, "state", pkce.state.as_str());
    add_pair(&mut pairs, "originator", "codex_cli_rs");
    assert(pairs.deep_view() =~= login_parameters(redirect_uri@, pkce.deep_view()));
    proof {
        lemma_login_page_is_plain();
    }
    match url_with_parameters(AUTHORIZE_ENDPOINT, &pairs) {
        Some(url) => Ok(url),
        None => Err("invalid OAuth login page".to_owned()),
    }
}

/// The ports that the answer of a login may come to, in the order in which they
/// are tried.
pub const CALLBACK_PORTS: [u16; 2] = [1455, 1457];

/// The error where none of the ports is free.
pub const NO_CALLBACK_PORT: &'static str =
    "cannot bind ChatGPT login callback on 127.0.0.1:1455 or :1457";

/// Where the issuer sends the user back to.
pub fn redirect_uri(port: u16) -> (r: String)
    ensures
        r@ == "http://localhost:"@ + decimal(port as nat) + "/auth/callback"@,
{
    let mut uri = "http://localhost:".to_owned();
    uri.push_str(decimal_text(port as u64).as_str());
    uri.push_str("/auth/callback");
    uri
}

/// The form that a code is exchanged for tokens with.
pub open spec fn code_form(
    code: Seq<char>,
    redirect_uri: Seq<char>,
    verifier: Seq<char>,
) -> Seq<(Seq<char>, Seq<char>)> {
    seq![
        ("grant_type"@, "authorization_code"@),
        ("code"@, code),
        ("redirect_uri"@, redirect_uri),
        ("client_id"@, CLIENT_ID@),
        ("code_verifier"@, verifier),
    ]
}

/// The form that a code is exchanged for tokens with.
pub fn code_exchange(code: &str, redirect_uri: &str, verifier: &str) -> (r: Vec<(String, String)>)
    ensures
        r.deep_view() == code_form(code@, redirect_uri@, verifier@),
{
    let mut pairs: Vec<(String, String)> = Vec::new();
    add_pair(&mut pairs, "grant_type", "authorization_code");
    add_pair(&mut pairs, "code", code);
    add_pair(&mut pairs, "redirect_uri", redirect_uri);
    add_pair(&mut pairs, "client_id", CLIENT_ID);
    add_pair(&mut pairs, "code_verifier", verifier);
    assert(pairs.deep_view() =~= code_form(code@, redirect_uri@, verifier@));
    pairs
}

/// The error of a missing token.
pub open spec fn missing_token(name: Seq<char>) -> Seq<char> {
    "ChatGPT token response is missing "@ + name
}

/// A token that has to be there and not be empty.
pub fn required_token(value: Option<String>, name: &str) -> (r: Result<String, String>)
    ensures
        match r {
            Ok(token) => filled(value.deep_view()) == Some(token@),
            Err(error) => filled(value.deep_view()) is None && error@ == missing_token(name@),
        },
{
    match fill(value) {
        Some(token) => Ok(token),
        None => {
            let mut error = "ChatGPT token response is missing ".to_owned();
            error.push_str(name);
            Err(error)
        },
    }
}

/// The login that an answer of the issuer stands for, or the error: all three
/// tokens have to be there, and one of them has to name an account.
pub open spec fn first_login(
    returned: TokenResponseView,
    now: Moment,
) -> Result<AuthFileView, Seq<char>> {
    match (filled(returned.id_token), filled(returned.access_token), filled(
        returned.refresh_token,
    )) {
        (None, _, _) => Err(missing_token("id_token"@)),
        (_, None, _) => Err(missing_token("access_token"@)),
        (_, _, None) => Err(missing_token("refresh_token"@)),
        (Some(id_token), Some(access_token), Some(refresh_token)) => {
            let tokens = TokensView { id_token, access_token, refresh_token, account_id: None };
            match account_of(tokens) {
                None => Err(NO_ACCOUNT@),
                Some(account) => Ok(
                    AuthFileView {
                        tokens: TokensView { account_id: Some(account), ..tokens },
                        last_refresh: now,
                    },
                ),
            }
        },
    }
}

/// A result as its model.
pub open spec fn login_result(r: Result<AuthFile, String>) -> Result<AuthFileView, Seq<char>> {
    match r {
        Ok(data) => Ok(data.deep_view()),
        Err(error) => Err(error@),
    }
}

/// The login that an answer of the issuer stands for, or the error.
pub fn login_data(returned: TokenResponse, now: Moment) -> (r: Result<AuthFile, String>)
    ensures
        login_result(r) == first_login(returned.deep_view(), now),
{
    let id_token = match required_token(returned.id_token, "id_token") {
        Ok(token) => token,
        Err(error) => {
            return Err(error);
        },
    };
    let access_token = match required_token(returned.access_token, "access_token") {
        Ok(token) => token,
        Err(error) => {
            return Err(error);
        },
    };
    let refresh_token = match required_token(returned.refresh_token, "refresh_token") {
        Ok(token) => token,
        Err(error) => {
            return Err(error);
        },
    };
    let mut tokens = Tokens { id_token, access_token, refresh_token, account_id: None };
    match usable_account(&tokens) {
        Ok(account) => {
            tokens.account_id = Some(account);
            Ok(AuthFile { tokens, last_refresh: now })
        },
        Err(error) => Err(error),
    }
}

/// The error of a code that the issuer did not take, by the status as it is
/// written.
pub fn code_refused(status_text: &str) -> (r: String)
    ensures
        r@ == "ChatGPT authorization-code exchange failed with HTTP "@ + status_text@,
{
    let mut error = "ChatGPT authorization-code exchange failed with HTTP ".to_owned();
    error.push_str(status_text);
    error
}

/// Limit for the headers of the callback, in bytes.
pub const CALLBACK_LIMIT: usize = 16 * 1024;

/// Where the reading of the callback stands.
#[derive(Debug, PartialEq)]
pub enum Received {
    /// The headers are not complete.
    More,
    /// The headers are complete.
    Whole,
    /// The callback is refused.
    Refused { error: String },
}

/// Model of [`Received`].
#[verifier::ext_equal]
pub enum ReceivedView {
    More,
    Whole,
    Refused { error: Seq<char> },
}

impl DeepView for Received {
    type V = ReceivedView;

    open spec fn deep_view(&self) -> ReceivedView {
        match self {
            Received::More => ReceivedView::More,
            Received::Whole => ReceivedView::Whole,
            Received::Refused { error } => ReceivedView::Refused { error: error@ },
        }
    }
}

/// Whether the four bytes from `at` on end the headers of a request.
pub open spec fn ends_headers(bytes: Seq<u8>, at: int) -> bool {
    0 <= at && at + 4 <= bytes.len() && bytes[at] == 13 && bytes[at + 1] == 10 && bytes[at + 2]
        == 13 && bytes[at + 3] == 10
}

/// Whether the bytes hold the end of a request's headers.
pub open spec fn has_headers(bytes: Seq<u8>) -> bool {
    exists|at: int| #[trigger] ends_headers(bytes, at)
}

/// Where the reading stands once `bytes` have come, `count` of them at last.
pub open spec fn received(bytes: Seq<u8>, count: nat) -> ReceivedView {
    if count == 0 {
        ReceivedView::Refused {
            error: "OAuth callback closed before complete request headers"@,
        }
    } else if has_headers(bytes) && bytes.len() <= CALLBACK_LIMIT {
        ReceivedView::Whole
    } else if !has_headers(bytes) && bytes.len() < CALLBACK_LIMIT {
        ReceivedView::More
    } else {
        ReceivedView::Refused { error: "OAuth callback headers exceeded 16 KiB"@ }
    }
}

/// Whether the bytes hold the end of a request's headers.
pub fn headers_complete(bytes: &Vec<u8>) -> (r: bool)
    ensures
        r == has_headers(bytes@),
{
    if bytes.len() < 4 {
        return false;
    }
    let mut at: usize = 0;
    while at <= bytes.len() - 4
        invariant
            4 <= bytes.len(),
            at <= bytes.len() - 3,
            forall|i: int| 0 <= i < at ==> !#[trigger] ends_headers(bytes@, i),
        decreases bytes.len() - at,
    {
        if bytes[at] == 13 && bytes[at + 1] == 10 && bytes[at + 2] == 13 && bytes[at + 3] == 10 {
            assert(ends_headers(bytes@, at as int));
            return true;
        }
        at += 1;
    }
    false
}

/// Take over bytes of the callback; none are its end.
pub fn receive(bytes: &mut Vec<u8>, chunk: &[u8]) -> (r: Received)
    ensures
        final(bytes)@ == old(bytes)@ + chunk@,
        r.deep_view() == received(final(bytes)@, chunk@.len()),
{
    let ghost before = bytes@;
    bytes.extend_from_slice(chunk);
    assert(bytes@ =~= before + chunk@);
    if chunk.len() == 0 {
        return Received::Refused {
            error: "OAuth callback closed before complete request headers".to_owned(),
        };
    }
    let whole = headers_complete(bytes);
    if whole && bytes.len() <= CALLBACK_LIMIT {
        Received::Whole
    } else if !whole && bytes.len() < CALLBACK_LIMIT {
        Received::More
    } else {
        Received::Refused { error: "OAuth callback headers exceeded 16 KiB".to_owned() }
    }
}

/// What a request line asks for, or the error: only `GET` is answered.
pub open spec fn target_of(line: Seq<Seq<char>>) -> Result<Seq<char>, Seq<char>> {
    if line.len() == 0 || line[0] != "GET"@ {
        Err("OAuth callback requires HTTP GET"@)
    } else if line.len() == 1 {
        Err("OAuth callback is missing request target"@)
    } else {
        Ok(line[1])
    }
}

/// What a request asks for, or the error.
pub open spec fn requested(bytes: Seq<u8>) -> Result<Seq<char>, Seq<char>> {
    if !vstd::utf8::valid_utf8(bytes) {
        Err("OAuth callback request is not valid UTF-8"@)
    } else {
        target_of(words(first_line(vstd::utf8::decode_utf8(bytes))))
    }
}

/// A result as its model.
pub open spec fn text_result(r: Result<String, String>) -> Result<Seq<char>, Seq<char>> {
    match r {
        Ok(text) => Ok(text@),
        Err(error) => Err(error@),
    }
}

/// What a request asks for, or the error.
pub fn request_target(bytes: Vec<u8>) -> (r: Result<String, String>)
    ensures
        text_result(r) == requested(bytes@),
{
    let text = match utf8_text(bytes) {
        Some(text) => text,
        None => {
            return Err("OAuth callback request is not valid UTF-8".to_owned());
        },
    };
    let parts = split_words(take_line(text.as_str()).as_str());
    let ghost views = parts.deep_view();
    assert(views.len() == parts@.len());
    assert(forall|i: int| 0 <= i < views.len() ==> views[i] == parts@[i]@);
    if parts.len() == 0 || !same_text(parts[0].as_str(), "GET") {
        return Err("OAuth callback requires HTTP GET".to_owned());
    }
    if parts.len() == 1 {
        return Err("OAuth callback is missing request target".to_owned());
    }
    Ok(parts[1].clone())
}

/// The code that a callback brings, or the error. Of two parameters of one name
/// the later counts.
pub open spec fn callback_code(
    parts: Option<(Seq<char>, Seq<(Seq<char>, Seq<char>)>)>,
    expected_state: Seq<char>,
) -> Result<Seq<char>, Seq<char>> {
    match parts {
        None => Err("invalid OAuth callback"@),
        Some((path, pairs)) => {
            let query = map_of(pairs);
            if path != "/auth/callback"@ {
                Err("unexpected OAuth callback path"@)
            } else if lookup(query, "state"@) != Some(expected_state) {
                Err("OAuth callback state did not match"@)
            } else if query.contains_key("error"@) {
                Err("ChatGPT login was rejected"@)
            } else {
                match filled(lookup(query, "code"@)) {
                    Some(code) => Ok(code),
                    None => Err("OAuth callback is missing authorization code"@),
                }
            }
        },
    }
}

/// The code that a callback with this path and these parameters brings, or the
/// error.
pub fn read_callback(
    parts: Option<(String, Vec<(String, String)>)>,
    expected_state: &str,
) -> (r: Result<String, String>)
    ensures
        text_result(r) == callback_code(parts.deep_view(), expected_state@),
{
    let (path, pairs) = match parts {
        Some(parts) => parts,
        None => {
            return Err("invalid OAuth callback".to_owned());
        },
    };
    let query = Table { entries: pairs };
    if !same_text(path.as_str(), "/auth/callback") {
        return Err("unexpected OAuth callback path".to_owned());
    }
    let matching = match query.get("state") {
        Some(state) => same_text(state.as_str(), expected_state),
        None => false,
    };
    if !matching {
        return Err("OAuth callback state did not match".to_owned());
    }
    if query.get("error").is_some() {
        return Err("ChatGPT login was rejected".to_owned());
    }
    if let Some(code) = query.get("code") {
        if !code.as_str().is_empty() {
            return Ok(code.clone());
        }
    }
    Err("OAuth callback is missing authorization code".to_owned())
}

/// The code that the target of a callback brings, or the error.
pub fn callback_result(target: &str, expected_state: &str) -> (r: Result<String, String>)
    ensures
        text_result(r) == callback_code(
            url_parts_of("http://localhost"@ + target@),
            expected_state@,
        ),
{
    let mut address = "http://localhost".to_owned();
    address.push_str(target);
    read_callback(url_parts(address.as_str()), expected_state)
}

/// The code that a whole callback request brings, or the error.
pub fn callback_request(bytes: Vec<u8>, expected_state: &str) -> (r: Result<String, String>)
    ensures
        text_result(r) == match requested(bytes@) {
            Ok(target) => callback_code(
                url_parts_of("http://localhost"@ + target),
                expected_state@,
            ),
            Err(error) => Err(error),
        },
{
    match request_target(bytes) {
        Ok(target) => callback_result(target.as_str(), expected_state),
        Err(error) => Err(error),
    }
}

/// What the browser is told of a login.
#[derive(Clone, Copy, Debug, PartialEq, Eq, Structural)]
pub enum LoginPage {
    /// The login is complete.
    Complete,
    /// The callback was refused.
    Refused,
    /// The callback was taken and the login failed afterwards.
    Failed,
}

/// The status line of the answer to the browser.
pub open spec fn page_status(page: LoginPage) -> Seq<char> {
    match page {
        LoginPage::Complete => "200 OK"@,
        LoginPage::Refused => "400 Bad Request"@,
        LoginPage::Failed => "500 Internal Server Error"@,
    }
}

/// The text of the page that the browser shows.
pub open spec fn page_text(page: LoginPage) -> Seq<char> {
    match page {
        LoginPage::Complete => "Login complete. You may close this window."@,
        _ => "Login failed. Return to e-agent for details."@,
    }
}

/// A page that holds a text.
pub open spec fn html_of(body: Seq<char>) -> Seq<char> {
    "<html><body>"@ + body + "</body></html>"@
}

/// An answer to the browser, with the length of the page in bytes.
pub open spec fn response_of(status: Seq<char>, html: Seq<char>) -> Seq<char> {
    "HTTP/1.1 "@ + status
        + "\r\nContent-Type: text/html; charset=utf-8\r\nContent-Length: "@ + decimal(
        vstd::utf8::encode_utf8(html).len(),
    ) + "\r\nConnection: close\r\n\r\n"@ + html
}

/// The answer to the browser.
pub fn callback_response(page: LoginPage) -> (r: String)
    ensures
        r@ == response_of(page_status(page), html_of(page_text(page))),
{
    let status = match page {
        LoginPage::Complete => "200 OK",
        LoginPage::Refused => "400 Bad Request",
        LoginPage::Failed => "500 Internal Server Error",
    };
    let body = match page {
        LoginPage::Complete => "Login complete. You may close this window.",
        _ => "Login failed. Return to e-agent for details.",
    };
    let mut html = "<html><body>".to_owned();
    html.push_str(body);
    html.push_str("</body></html>");
    let mut response = "HTTP/1.1 ".to_owned();
    response.push_str(status);
    response.push_str("\r\nContent-Type: text/html; charset=utf-8\r\nContent-Length: ");
    response.push_str(decimal_text(html.as_str().as_bytes().len() as u64).as_str());
    response.push_str("\r\nConnection: close\r\n\r\n");
    response.push_str(html.as_str());
    response
}

/// The error of a callback is one of five fixed texts: nothing that the callback
/// holds is in it.
pub proof fn callback_errors_keep_secrets(
    parts: Option<(Seq<char>, Seq<(Seq<char>, Seq<char>)>)>,
    expected_state: Seq<char>,
)
    ensures
        callback_code(parts, expected_state) matches Err(error) ==> {
            ||| error == "invalid OAuth callback"@
            ||| error == "unexpected OAuth callback path"@
            ||| error == "OAuth callback state did not match"@
            ||| error == "ChatGPT login was rejected"@
            ||| error == "OAuth callback is missing authorization code"@
        },
{
}

/// A code is taken only from the callback path, only with the expected state,
/// and only where the issuer reports no error.
pub proof fn codes_come_with_the_expected_state(
    parts: Option<(Seq<char>, Seq<(Seq<char>, Seq<char>)>)>,
    expected_state: Seq<char>,
)
    ensures
        callback_code(parts, expected_state) matches Ok(code) ==> parts matches Some(known)
            && known.0 == "/auth/callback"@ && lookup(map_of(known.1), "state"@) == Some(
            expected_state,
        ) && !map_of(known.1).contains_key("error"@) && lookup(map_of(known.1), "code"@) == Some(
            code,
        ) && code.len() > 0,
{
}

/// One renewal makes no more than two exchanges.
pub proof fn renewals_are_bounded(
    auth: AuthView,
    exchanges: nat,
    outcome: Result<TokenResponseView, Seq<char>>,
    disk: Option<AuthFileView>,
    now: Moment,
)
    requires
        exchanges >= EXCHANGE_BUDGET,
    ensures
        !(exchanged(auth, exchanges, outcome, disk, now).1 is Exchange),
{
}

/// The token that is exchanged is always the one of the login in memory, and
/// that login is the one in the auth file wherever the file was replaced.
pub proof fn stale_tokens_are_never_submitted(
    auth: AuthView,
    force: bool,
    rejected: Option<Seq<char>>,
    exchanges: nat,
    outcome: Result<TokenResponseView, Seq<char>>,
    disk: Option<AuthFileView>,
    now: Moment,
)
    ensures
        begun(auth, force, rejected, disk, now).1 matches ActionView::Exchange { refresh_token }
            ==> refresh_token == begun(
            auth,
            force,
            rejected,
            disk,
            now,
        ).0.memory.tokens.refresh_token,
        exchanged(auth, exchanges, outcome, disk, now).1 matches ActionView::Exchange {
            refresh_token,
        } ==> refresh_token == exchanged(
            auth,
            exchanges,
            outcome,
            disk,
            now,
        ).0.memory.tokens.refresh_token,
        replaced(auth, disk) ==> Some(begun(auth, force, rejected, disk, now).0.memory) == disk,
{
}

/// A login that is seen during an exchange wins: it is the one in memory
/// afterwards, and nothing is written over it.
pub proof fn logins_during_an_exchange_win(
    auth: AuthView,
    exchanges: nat,
    outcome: Result<TokenResponseView, Seq<char>>,
    disk: Option<AuthFileView>,
    now: Moment,
)
    requires
        replaced(auth, disk),
    ensures
        Some(exchanged(auth, exchanges, outcome, disk, now).0.memory) == disk,
        !(exchanged(auth, exchanges, outcome, disk, now).1 is Save),
{
}

/// A failed exchange leaves the login as it is where the auth file was not
/// replaced meanwhile.
pub proof fn failed_exchanges_change_nothing(
    auth: AuthView,
    exchanges: nat,
    error: Seq<char>,
    disk: Option<AuthFileView>,
    now: Moment,
)
    requires
        !replaced(auth, disk),
    ensures
        exchanged(auth, exchanges, Err(error), disk, now) == (auth, ActionView::Fail { error }),
{
}

/// After a successful exchange whose login could not be written, the auth file
/// as it was before does not win over the login in memory.
pub proof fn unwritten_logins_are_kept(
    auth: AuthView,
    exchanges: nat,
    returned: TokenResponseView,
    disk: Option<AuthFileView>,
    now: Moment,
    error: Seq<char>,
)
    requires
        !replaced(auth, disk),
    ensures
        ({
            let after = saved(
                exchanged(auth, exchanges, Ok(returned), disk, now).0,
                Err(error),
            ).0;
            after.memory == rotated(auth.memory, returned, now) && after_look(after, disk)
                == after
        }),
{
}

/// A rejected token that has been replaced meanwhile leads to no exchange,
/// unless one is due for the login that replaced it.
pub proof fn replaced_tokens_are_not_renewed(
    auth: AuthView,
    rejected: Seq<char>,
    disk: Option<AuthFileView>,
    now: Moment,
)
    requires
        after_look(auth, disk).memory.tokens.access_token != rejected,
        !is_due(after_look(auth, disk).memory, now),
    ensures
        begun(auth, true, Some(rejected), disk, now) == (after_look(auth, disk), ActionView::Done),
{
}

/// A renewal keeps the account, and every token that the issuer does not hand
/// out anew.
pub proof fn renewals_keep_what_is_not_returned(
    data: AuthFileView,
    returned: TokenResponseView,
    now: Moment,
)
    ensures
        rotated(data, returned, now).tokens.account_id == data.tokens.account_id,
        filled(returned.id_token) is None ==> rotated(data, returned, now).tokens.id_token
            == data.tokens.id_token,
        filled(returned.access_token) is None ==> rotated(data, returned, now).tokens.access_token
            == data.tokens.access_token,
        filled(returned.refresh_token) is None ==> rotated(data, returned, now).tokens.refresh_token
            == data.tokens.refresh_token,
{
}

/// Of a refused renewal nothing is told but the status and the kind of a lasting
/// refusal: two answers that agree in those give the same error, whatever else
/// they hold.
pub proof fn refusals_keep_secrets(
    status: u16,
    status_text: Seq<char>,
    a: Seq<char>,
    b: Seq<char>,
    first: Option<TokenResponseView>,
    second: Option<TokenResponseView>,
)
    requires
        !(200 <= status <= 299),
        refusal_in(a) == refusal_in(b),
    ensures
        renewal(Some(TokenAnswerView { status, status_text, body: a, returned: first })) == renewal(
            Some(TokenAnswerView { status, status_text, body: b, returned: second }),
        ),
{
}

/// A login is due from five minutes before its access token expires, or, where
/// that is not known, eight days after its last renewal.
pub proof fn logins_are_renewed_in_time(exp: i64, last: Moment, now: Moment)
    ensures
        due(Some(exp), last, now) <==> (exp - now.secs - 300) * 1_000_000_000 <= now.nanos,
        due(None, last, now) <==> (last.secs - now.secs + 691_200) * 1_000_000_000 + last.nanos
            <= now.nanos,
{
}

/// The account of a login is the stored one, else the one of the id token, else
/// the one of the access token; a blank one does not count.
pub proof fn accounts_are_looked_for_in_order(tokens: TokensView)
    ensures
        tokens.account_id matches Some(account) ==> account.len() > 0 ==> account_of(tokens) == Some(
            account,
        ),
        (tokens.account_id is None || (tokens.account_id->0).len() == 0) ==> account_of(tokens)
            == if token_account(tokens.id_token) is Some {
            token_account(tokens.id_token)
        } else {
            token_account(tokens.access_token)
        },
        account_of(tokens) matches Some(account) ==> account.len() > 0,
{
}

/// The claims of a token name its account, flat or nested, the flat claim first,
/// and when it expires.
pub proof fn claims_name_account_and_expiry(claims: JsonView)
    ensures
        ({
            let said = |value: Option<JsonView>| match value {
                Some(JsonView::Str(text)) => if text.len() > 0 {
                    Some(text)
                } else {
                    None
                },
                _ => None,
            };
            let flat = said(get(claims, "https://api.openai.com/auth.chatgpt_account_id"@));
            let nested = match get(claims, "https://api.openai.com/auth"@) {
                Some(inner) => said(get(inner, "chatgpt_account_id"@)),
                None => None,
            };
            let seen = claims_metadata(claims);
            &&& flat is Some ==> seen.account_id == flat
            &&& flat is None ==> seen.account_id == nested
            &&& get(claims, "exp"@) matches Some(JsonView::Number(NumberView::Unsigned(secs)))
                ==> secs <= 8_210_266_876_799 ==> seen.exp == Some(secs as i64)
            &&& !(get(claims, "exp"@) matches Some(JsonView::Number(_))) ==> seen.exp is None
        }),
{
}

/// A token is read from its middle part: between the first two dots stand its
/// claims, in base64 for URLs.
pub proof fn claims_stand_in_the_middle(
    head: Seq<char>,
    body: Seq<char>,
    rest: Seq<char>,
)
    requires
        forall|i: int| 0 <= i < head.len() ==> head[i] != '.',
        forall|i: int| 0 <= i < body.len() ==> body[i] != '.',
    ensures
        token_claims(head + seq!['.'] + body + seq!['.'] + rest) == document_of(
            base64_url_decoded(body),
        ),
        token_claims(head) is None,
{
    let front = head + seq!['.'] + body;
    lemma_pieces_of(head, '.');
    lemma_piece_behind(head, body, '.');
    let whole = front + seq!['.'] + rest;
    let before = split_on(front, '.');
    assert(head.push('.') + body =~= front);
    assert(whole.take(front.push('.').len() as int) =~= front.push('.'));
    lemma_pieces_grow(whole, front.push('.'), '.');
    assert(front.push('.').drop_last() =~= front);
    assert(split_on(front.push('.'), '.') == before.push(Seq::empty()));
    assert(before == seq![head].push(body));
    assert(split_on(whole, '.')[1] == body);
}

proof fn lemma_pieces_of(text: Seq<char>, c: char)
    requires
        forall|i: int| 0 <= i < text.len() ==> text[i] != c,
    ensures
        split_on(text, c) == seq![text],
    decreases text.len(),
{
    if text.len() > 0 {
        lemma_pieces_of(text.drop_last(), c);
        assert(text.drop_last().push(text.last()) =~= text);
        assert(split_on(text, c) =~= seq![text]);
    } else {
        assert(text =~= Seq::empty());
        assert(split_on(text, c) =~= seq![text]);
    }
}

proof fn lemma_piece_behind(head: Seq<char>, piece: Seq<char>, c: char)
    requires
        forall|i: int| 0 <= i < piece.len() ==> piece[i] != c,
    ensures
        split_on(head.push(c) + piece, c) == split_on(head, c).push(piece),
    decreases piece.len(),
{
    let whole = head.push(c) + piece;
    if piece.len() == 0 {
        assert(whole =~= head.push(c));
        assert(whole.drop_last() =~= head);
        assert(piece =~= Seq::empty());
    } else {
        let shorter = piece.drop_last();
        assert(whole.drop_last() =~= head.push(c) + shorter);
        assert(whole.last() == piece.last());
        lemma_piece_behind(head, shorter, c);
        assert(shorter.push(piece.last()) =~= piece);
        assert(split_on(whole.drop_last(), c).drop_last() =~= split_on(head, c));
    }
}

proof fn lemma_pieces_grow(whole: Seq<char>, front: Seq<char>, c: char)
    requires
        front.len() <= whole.len(),
        whole.take(front.len() as int) == front,
        front.len() > 0,
        front.last() == c,
    ensures
        split_on(whole, c).len() >= split_on(front, c).len(),
        split_on(front, c).len() > 1,
        forall|i: int|
            0 <= i < split_on(front, c).len() - 1 ==> (#[trigger] split_on(whole, c)[i]) == split_on(
                front,
                c,
            )[i],
    decreases whole.len(),
{
    lemma_some_piece(front.drop_last(), c);
    if whole.len() == front.len() {
        assert(whole.take(front.len() as int) =~= whole);
    } else {
        let shorter = whole.drop_last();
        assert(shorter.take(front.len() as int) =~= front);
        lemma_pieces_grow(shorter, front, c);
        let before = split_on(shorter, c);
        let after = split_on(whole, c);
        assert forall|i: int| 0 <= i < split_on(front, c).len() - 1 implies (#[trigger] after[i])
            == split_on(front, c)[i] by {
            assert(after[i] == before[i]);
        }
    }
}

proof fn lemma_some_piece(text: Seq<char>, c: char)
    ensures
        split_on(text, c).len() > 0,
    decreases text.len(),
{
    if text.len() > 0 {
        lemma_some_piece(text.drop_last(), c);
    }
}

/// A look at the auth file takes over a login that is there, can be used and was
/// not seen before, and otherwise changes nothing.
pub proof fn new_logins_are_taken_over(auth: AuthView, data: AuthFileView)
    ensures
        data.tokens.access_token.len() > 0 && data.tokens.refresh_token.len() > 0 && data
            != auth.observed ==> after_look(auth, Some(data)) == (AuthView {
            memory: data,
            observed: data,
        }) && replaced(auth, Some(data)),
        data.tokens.access_token.len() == 0 || data.tokens.refresh_token.len() == 0 || data
            == auth.observed ==> after_look(auth, Some(data)) == auth && !replaced(auth, Some(data)),
        after_look(auth, None) == auth && !replaced(auth, None),
{
}

/// A renewal begins where it is asked for, for a token that still is the one in
/// use if one was rejected, or where it is due; otherwise nothing is exchanged.
pub proof fn renewals_begin_where_needed(
    auth: AuthView,
    force: bool,
    rejected: Option<Seq<char>>,
    disk: Option<AuthFileView>,
    now: Moment,
)
    ensures
        ({
            let seen = after_look(auth, disk);
            let asked = force && (rejected is None || rejected == Some(
                seen.memory.tokens.access_token,
            ));
            begun(auth, force, rejected, disk, now) == (
                seen,
                if asked || due(
                    token_expiry(seen.memory.tokens.access_token),
                    seen.memory.last_refresh,
                    now,
                ) {
                    ActionView::Exchange { refresh_token: seen.memory.tokens.refresh_token }
                } else {
                    ActionView::Done
                },
            )
        }),
{
}

/// What the issuer hands out is taken over, each token in its own place, and
/// written down as renewed now; a login that was written down is what was last seen
/// in the file, and one that could not be written fails and is kept.
pub proof fn renewed_logins_are_written_down(
    auth: AuthView,
    exchanges: nat,
    returned: TokenResponseView,
    disk: Option<AuthFileView>,
    now: Moment,
    error: Seq<char>,
)
    requires
        !replaced(auth, disk),
    ensures
        ({
            let (after, action) = exchanged(auth, exchanges, Ok(returned), disk, now);
            let old = auth.memory.tokens;
            let new = after.memory.tokens;
            &&& action is Save
            &&& after.observed == auth.observed
            &&& after.memory.last_refresh == now
            &&& new.account_id == old.account_id
            &&& new.id_token == if returned.id_token is Some && (returned.id_token->0).len() > 0 {
                returned.id_token->0
            } else {
                old.id_token
            }
            &&& new.access_token == if returned.access_token is Some && (
            returned.access_token->0).len() > 0 {
                returned.access_token->0
            } else {
                old.access_token
            }
            &&& new.refresh_token == if returned.refresh_token is Some && (
            returned.refresh_token->0).len() > 0 {
                returned.refresh_token->0
            } else {
                old.refresh_token
            }
        }),
        saved(auth, Ok(())) == (
            AuthView { memory: auth.memory, observed: auth.memory },
            ActionView::Done,
        ),
        saved(auth, Err(error)) == (auth, ActionView::Fail { error }),
{
}

/// A login that turns up during an exchange is used as it is where it is not due;
/// one that is due is exchanged in its turn, once, and after that the outcome
/// decides.
pub proof fn logins_that_turn_up_are_used(
    auth: AuthView,
    data: AuthFileView,
    exchanges: nat,
    outcome: Result<TokenResponseView, Seq<char>>,
    now: Moment,
)
    requires
        replaced(auth, Some(data)),
    ensures
        ({
            let (after, action) = exchanged(auth, exchanges, outcome, Some(data), now);
            let is_due = due(token_expiry(data.tokens.access_token), data.last_refresh, now);
            &&& after.memory == data && after.observed == data
            &&& !is_due ==> action is Done
            &&& is_due && exchanges < 2 ==> action == (ActionView::Exchange {
                refresh_token: data.tokens.refresh_token,
            })
            &&& is_due && exchanges >= 2 ==> match outcome {
                Ok(_) => action is Done,
                Err(error) => action == (ActionView::Fail { error }),
            }
        }),
{
}

/// A renewal succeeds where the issuer answers with success and tokens; of a
/// refusal it is told what lasts, and without an answer that none came.
pub proof fn renewals_go_by_the_answer(
    status: u16,
    status_text: Seq<char>,
    body: Seq<char>,
    returned: Option<TokenResponseView>,
)
    ensures
        ({
            let answer = TokenAnswerView { status, status_text, body, returned };
            let brought = renewal(Some(answer));
            &&& brought is Ok <==> 200 <= status < 300 && returned is Some
            &&& brought matches Ok(tokens) ==> Some(tokens) == returned
            &&& !(200 <= status < 300) && occurs_in(body, "refresh_token_expired"@) ==> brought
                == Err::<TokenResponseView, Seq<char>>(
                "ChatGPT login has expired; run `e-agent login`"@,
            )
            &&& !(200 <= status < 300) && !occurs_in(body, "refresh_token_expired"@) && occurs_in(
                body,
                "refresh_token_reused"@,
            ) ==> brought == Err::<TokenResponseView, Seq<char>>(
                "ChatGPT refresh token was reused by another process; run `e-agent login`"@,
            )
            &&& !(200 <= status < 300) && !occurs_in(body, "refresh_token_expired"@) && !occurs_in(
                body,
                "refresh_token_reused"@,
            ) ==> brought == Err::<TokenResponseView, Seq<char>>(
                if occurs_in(body, "refresh_token_invalidated"@) {
                    "ChatGPT login was revoked; run `e-agent login`"@
                } else if status == 401 {
                    "ChatGPT login has expired or was revoked; run `e-agent login`"@
                } else {
                    "ChatGPT token refresh failed with HTTP "@ + status_text
                },
            )
        }),
        renewal(None) is Err,
{
}

/// A first login has the three tokens that the issuer hands out, each in its own
/// place, the account that one of them names, and the time; whatever is missing is
/// refused.
pub proof fn first_logins_hold_what_was_handed_out(returned: TokenResponseView, now: Moment)
    ensures
        first_login(returned, now) matches Ok(data) ==> {
            &&& returned.id_token == Some(data.tokens.id_token)
            &&& returned.access_token == Some(data.tokens.access_token)
            &&& returned.refresh_token == Some(data.tokens.refresh_token)
            &&& data.tokens.id_token.len() > 0 && data.tokens.access_token.len() > 0
                && data.tokens.refresh_token.len() > 0
            &&& data.last_refresh == now
            &&& data.tokens.account_id matches Some(account) && (token_account(
                data.tokens.id_token,
            ) == Some(account) || (token_account(data.tokens.id_token) is None && token_account(
                data.tokens.access_token,
            ) == Some(account)))
        },
        (returned.id_token matches Some(id) && returned.access_token matches Some(access)
            && returned.refresh_token matches Some(refresh) && id.len() > 0 && access.len() > 0
            && refresh.len() > 0 && (token_account(id) is Some || token_account(access) is Some))
            ==> first_login(returned, now) is Ok,
{
}

/// Whether a list of named values gives this value under this name.
pub open spec fn gives(pairs: Seq<(Seq<char>, Seq<char>)>, name: Seq<char>, value: Seq<char>) -> bool {
    exists|i: int|
        0 <= i < pairs.len() && (#[trigger] pairs[i]).0 == name && pairs[i].1 == value
}

/// A login page is asked for with the secrets in their places: the challenge and
/// not the verifier, the state, and where to come back to; the code that comes back
/// is exchanged with the verifier.
pub proof fn logins_ask_with_their_secrets(
    redirect_uri: Seq<char>,
    pkce: PkceView,
    code: Seq<char>,
    verifier: Seq<char>,
    token: Seq<char>,
)
    ensures
        ({
            let asked = login_parameters(redirect_uri, pkce);
            &&& gives(asked, "response_type"@, "code"@)
            &&& gives(asked, "client_id"@, CLIENT_ID@)
            &&& gives(asked, "redirect_uri"@, redirect_uri)
            &&& gives(asked, "scope"@, SCOPE@)
            &&& gives(asked, "code_challenge"@, pkce.challenge)
            &&& gives(asked, "code_challenge_method"@, "S256"@)
            &&& gives(asked, "state"@, pkce.state)
            &&& gives(asked, "originator"@, "codex_cli_rs"@)
            &&& gives(asked, "id_token_add_organizations"@, "true"@)
            &&& gives(asked, "codex_cli_simplified_flow"@, "true"@)
            &&& asked.len() == 10
        }),
        ({
            let form = code_form(code, redirect_uri, verifier);
            &&& gives(form, "grant_type"@, "authorization_code"@)
            &&& gives(form, "code"@, code)
            &&& gives(form, "redirect_uri"@, redirect_uri)
            &&& gives(form, "client_id"@, CLIENT_ID@)
            &&& gives(form, "code_verifier"@, verifier)
            &&& form.len() == 5
        }),
        ({
            let body = refresh_request(token);
            &&& get(body, "client_id"@) == Some(JsonView::Str(CLIENT_ID@))
            &&& get(body, "grant_type"@) == Some(JsonView::Str("refresh_token"@))
            &&& get(body, "refresh_token"@) == Some(JsonView::Str(token))
        }),
{
    let asked = login_parameters(redirect_uri, pkce);
    assert(asked[0].0 == "response_type"@ && asked[1].0 == "client_id"@ && asked[2].0
        == "redirect_uri"@ && asked[3].0 == "scope"@ && asked[4].0 == "code_challenge"@
        && asked[5].0 == "code_challenge_method"@ && asked[6].0 == "id_token_add_organizations"@
        && asked[7].0 == "codex_cli_simplified_flow"@ && asked[8].0 == "state"@ && asked[9].0
        == "originator"@);
    let form = code_form(code, redirect_uri, verifier);
    assert(form[0].0 == "grant_type"@ && form[1].0 == "code"@ && form[2].0 == "redirect_uri"@
        && form[3].0 == "client_id"@ && form[4].0 == "code_verifier"@);
    reveal_strlit("client_id");
    reveal_strlit("grant_type");
    reveal_strlit("refresh_token");
    assert("client_id"@.len() == 9 && "grant_type"@.len() == 10 && "refresh_token"@.len() == 13);
    let fields = refresh_request(token)->Object_0;
    assert(fields[0].0 == "client_id"@ && fields[1].0 == "grant_type"@ && fields[2].0
        == "refresh_token"@);
    assert forall|at: int| 0 <= at < 3 implies get(
        JsonView::Object(fields),
        (#[trigger] fields[at]).0,
    ) == Some(fields[at].1) by {
        crate::json::fields_are_found_by_name(fields, fields[at].0, at);
    }
}

/// The challenge is the digest of the verifier that is kept, and verifier and state
/// come each from its own bytes.
pub proof fn challenges_fit_their_verifier(verifier: Seq<u8>, state: Seq<u8>)
    ensures
        ({
            let secrets = secrets_of(verifier, state);
            &&& secrets.verifier == base64_url_of(verifier)
            &&& secrets.state == base64_url_of(state)
            &&& secrets.challenge == base64_url_of(
                sha256_of(vstd::utf8::encode_utf8(secrets.verifier)),
            )
        }),
        temporary_of(state) == ".auth."@ + base64_url_of(state) + ".tmp"@,
{
}

/// A callback is read until its headers are whole, and no further than its limit.
pub proof fn callbacks_are_read_to_their_end(bytes: Seq<u8>, count: nat, at: int)
    ensures
        count == 0 ==> received(bytes, count) is Refused,
        count > 0 && 0 <= at && at + 4 <= bytes.len() <= 16_384 && bytes.subrange(at, at + 4)
            == seq![13u8, 10u8, 13u8, 10u8] ==> received(bytes, count) is Whole,
        count > 0 && bytes.len() < 16_384 && (forall|k: int|
            0 <= k && k + 4 <= bytes.len() ==> #[trigger] bytes.subrange(k, k + 4) != seq![
                13u8,
                10u8,
                13u8,
                10u8,
            ]) ==> received(bytes, count) is More,
        bytes.len() > 16_384 ==> received(bytes, count) is Refused,
{
    let end = seq![13u8, 10u8, 13u8, 10u8];
    if 0 <= at && at + 4 <= bytes.len() && bytes.subrange(at, at + 4) == end {
        let part = bytes.subrange(at, at + 4);
        assert(part[0] == bytes[at] && part[1] == bytes[at + 1] && part[2] == bytes[at + 2]
            && part[3] == bytes[at + 3]);
        assert(ends_headers(bytes, at));
    }
    if has_headers(bytes) {
        let k = choose|k: int| #[trigger] ends_headers(bytes, k);
        assert(bytes.subrange(k, k + 4) =~= end);
    }
}

/// A callback asks for what stands behind `GET` in its request line, and any other
/// request is refused.
pub proof fn callbacks_ask_by_get(line: Seq<Seq<char>>)
    ensures
        target_of(line) is Ok <==> line.len() >= 2 && line[0] == "GET"@,
        target_of(line) matches Ok(target) ==> target == line[1],
{
}

/// A callback at the right path, with the expected state, without an error and with
/// a code, brings that code.
pub proof fn callbacks_bring_their_code(
    pairs: Seq<(Seq<char>, Seq<char>)>,
    state: Seq<char>,
    code: Seq<char>,
)
    requires
        lookup(map_of(pairs), "state"@) == Some(state),
        !map_of(pairs).contains_key("error"@),
        lookup(map_of(pairs), "code"@) == Some(code),
        code.len() > 0,
    ensures
        callback_code(Some(("/auth/callback"@, pairs)), state) == Ok::<Seq<char>, Seq<char>>(code),
{
}

/// The browser is told how the login ended, with a page of the length that its
/// header says.
pub proof fn browsers_are_told_how_it_ended(status: Seq<char>, html: Seq<char>)
    ensures
        page_status(LoginPage::Complete) == "200 OK"@,
        page_status(LoginPage::Refused) == "400 Bad Request"@,
        page_status(LoginPage::Failed) == "500 Internal Server Error"@,
        page_text(LoginPage::Complete) == "Login complete. You may close this window."@,
        page_text(LoginPage::Refused) == "Login failed. Return to e-agent for details."@,
        page_text(LoginPage::Failed) == page_text(LoginPage::Refused),
        response_of(status, html) == "HTTP/1.1 "@ + status
            + "\r\nContent-Type: text/html; charset=utf-8\r\nContent-Length: "@ + decimal(
            vstd::utf8::encode_utf8(html).len(),
        ) + "\r\nConnection: close\r\n\r\n"@ + html,
        html_of(html) == "<html><body>"@ + html + "</body></html>"@,
{
}

} // verus!
