//! The failures of a request, as the server knows them and as a client is
//! told of them.

use crate::auth::Auth;
use crate::timeplan::text;
use vstd::prelude::*;

verus! {

pub const BAD_REQUEST: u16 = 400;

pub const NOT_FOUND: u16 = 404;

pub const UNAUTHORIZED: u16 = 401;

pub const FORBIDDEN: u16 = 403;

pub const INTERNAL_SERVER_ERROR: u16 = 500;

/// How a request can fail. A failure of a collaborator (template, database,
/// mail) carries the collaborator's own description of it.
#[derive(Clone, Debug, PartialEq, Eq)]
pub enum HttpError {
    TemplateError(String),
    NotFound,
    InternalServerError,
    DBError(String),
    MailError(String),
    ErrorMessages(String),
    InvalidCredentials,
    StatusCode(u16),
}

pub enum HttpErrorView {
    TemplateError(Seq<char>),
    NotFound,
    InternalServerError,
    DBError(Seq<char>),
    MailError(Seq<char>),
    ErrorMessages(Seq<char>),
    InvalidCredentials,
    StatusCode(u16),
}

impl View for HttpError {
    type V = HttpErrorView;

    open spec fn view(&self) -> HttpErrorView {
        match self {
            HttpError::TemplateError(m) => HttpErrorView::TemplateError(m@),
            HttpError::NotFound => HttpErrorView::NotFound,
            HttpError::InternalServerError => HttpErrorView::InternalServerError,
            HttpError::DBError(m) => HttpErrorView::DBError(m@),
            HttpError::MailError(m) => HttpErrorView::MailError(m@),
            HttpError::ErrorMessages(m) => HttpErrorView::ErrorMessages(m@),
            HttpError::InvalidCredentials => HttpErrorView::InvalidCredentials,
            HttpError::StatusCode(code) => HttpErrorView::StatusCode(*code),
        }
    }
}

/// What a client is told of a failure.
#[derive(Clone, Debug, PartialEq, Eq)]
pub enum ClientError {
    NotFound,
    InternalServerError,
    InvalidCredentials,
    Generic(String),
    StatusCode(u16),
}

pub enum ClientErrorView {
    NotFound,
    InternalServerError,
    InvalidCredentials,
    Generic(Seq<char>),
    StatusCode(u16),
}

impl View for ClientError {
    type V = ClientErrorView;

    open spec fn view(&self) -> ClientErrorView {
        match self {
            ClientError::NotFound => ClientErrorView::NotFound,
            ClientError::InternalServerError => ClientErrorView::InternalServerError,
            ClientError::InvalidCredentials => ClientErrorView::InvalidCredentials,
            ClientError::Generic(m) => ClientErrorView::Generic(m@),
            ClientError::StatusCode(code) => ClientErrorView::StatusCode(*code),
        }
    }
}

/// The text that the formatting of the standard library renders for a string
/// under `{:?}`: the string in double quotes, with its special characters
/// escaped.
pub uninterp spec fn debug_rendering(s: Seq<char>) -> Seq<char>;

/// Formats a string with `format!("{:?}", ..)`, that is with the `Debug`
/// impl of `str` in the standard library; the result is named, nothing more
/// is claimed of it.
#[verifier::external_body]
fn render_debug(s: &String) -> (r: String)
    ensures
        r@ == debug_rendering(s@),
{
    format!("{:?}", s)
}

/// What a client is told of the failure `e`.
pub open spec fn client_error_of(e: HttpErrorView) -> ClientErrorView {
    match e {
        HttpErrorView::TemplateError(m) => ClientErrorView::Generic("Template error: "@ + m),
        HttpErrorView::NotFound => ClientErrorView::NotFound,
        HttpErrorView::InternalServerError => ClientErrorView::InternalServerError,
        HttpErrorView::DBError(m) => ClientErrorView::Generic("Database error: "@ + m),
        HttpErrorView::MailError(m) => ClientErrorView::Generic("Mail error: "@ + m),
        HttpErrorView::ErrorMessages(m) => ClientErrorView::Generic(debug_rendering(m)),
        HttpErrorView::InvalidCredentials => ClientErrorView::InvalidCredentials,
        HttpErrorView::StatusCode(code) => ClientErrorView::StatusCode(code),
    }
}

/// The number of the HTTP status with which a failure is answered.
pub open spec fn status_of_client_error(e: ClientErrorView) -> u16 {
    match e {
        ClientErrorView::NotFound => NOT_FOUND,
        ClientErrorView::InternalServerError => INTERNAL_SERVER_ERROR,
        ClientErrorView::Generic(_) => INTERNAL_SERVER_ERROR,
        ClientErrorView::InvalidCredentials => UNAUTHORIZED,
        ClientErrorView::StatusCode(code) => code,
    }
}

/// Whether a number is an HTTP status: three digits, the first not zero.
pub open spec fn is_status_code(code: u16) -> bool {
    100 <= code <= 999
}

fn prefixed(prefix: &str, m: String) -> (r: String)
    ensures
        r@ == prefix@ + m@,
{
    let mut r = prefix.to_owned();
    r.append(m.as_str());
    r
}

impl ClientError {
    /// What a client is told of the failure `e`: a message of the server's own
    /// is passed on in its debug rendering, a collaborator's description under
    /// a heading, everything else as it is.
    pub fn from(e: HttpError) -> (res: ClientError)
        ensures
            res@ == client_error_of(e@),
    {
        match e {
            HttpError::TemplateError(m) => ClientError::Generic(prefixed("Template error: ", m)),
            HttpError::NotFound => ClientError::NotFound,
            HttpError::InternalServerError => ClientError::InternalServerError,
            HttpError::DBError(m) => ClientError::Generic(prefixed("Database error: ", m)),
            HttpError::MailError(m) => ClientError::Generic(prefixed("Mail error: ", m)),
            HttpError::ErrorMessages(m) => ClientError::Generic(render_debug(&m)),
            HttpError::InvalidCredentials => ClientError::InvalidCredentials,
            HttpError::StatusCode(code) => ClientError::StatusCode(code),
        }
    }

    /// The number of the HTTP status with which the failure is answered.
    pub fn status(&self) -> (res: u16)
        ensures
            res == status_of_client_error(self@),
    {
        match self {
            ClientError::NotFound => NOT_FOUND,
            ClientError::InternalServerError => INTERNAL_SERVER_ERROR,
            ClientError::Generic(_) => INTERNAL_SERVER_ERROR,
            ClientError::InvalidCredentials => UNAUTHORIZED,
            ClientError::StatusCode(code) => *code,
        }
    }

    /// Whether the failure can be answered at all: a status carried along has
    /// to be an HTTP status.
    pub fn has_valid_status(&self) -> (res: bool)
        ensures
            res == is_status_code(status_of_client_error(self@)),
    {
        let code = self.status();
        100 <= code && code <= 999
    }
}

/// How the server is set up.
#[derive(Clone, Debug, PartialEq, Eq)]
pub struct HttpServerOptions {
    pub bind_address: String,
    pub base_url: String,
    pub data_path: String,
    pub reload_db_token: String,
}

/// What is submitted to have the database read anew.
#[derive(Clone, Debug, PartialEq, Eq)]
pub struct ReloadDBQuery {
    pub token: Option<String>,
}

/// The answer to a database read anew.
#[derive(Clone, Debug, PartialEq, Eq)]
pub struct ReloadDBResponse {}

/// Whether the caller may have the database read anew: an administrator
/// may, and so may whoever submits the token of the server.
pub open spec fn may_reload(auth: Auth, query: ReloadDBQuery, options: HttpServerOptions) -> bool {
    auth.is_admin || text(query.token) == Some(options.reload_db_token@)
}

/// Decides whether the database is read anew on behalf of the caller.
pub fn reload_db(auth: &Auth, query: &ReloadDBQuery, options: &HttpServerOptions) -> (res: Result<
    ReloadDBResponse,
    HttpError,
>)
    ensures
        res is Ok <==> may_reload(*auth, *query, *options),
        res matches Err(e) ==> e@ == HttpErrorView::StatusCode(FORBIDDEN),
{
    let token_fits = match &query.token {
        Some(t) => *t == options.reload_db_token,
        None => false,
    };
    if !auth.is_admin() && !token_fits {
        return Err(HttpError::StatusCode(FORBIDDEN));
    }
    Ok(ReloadDBResponse {  })
}

} // verus!
