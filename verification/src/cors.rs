//! Cross-origin resource sharing: which origins a server admits, and the
//! response headers that say so.

use vstd::prelude::*;
use regex::Regex;
use crate::decimal::decimal;
use crate::decimal::push_decimal;
use crate::text::chars_of;
use crate::text::same_text;

verus! {

/// The error of the `url` crate for an origin that is no URL. The library
/// carries it through unread.
#[verifier::external_type_specification]
#[verifier::external_body]
pub struct ExUrlParseError(url::ParseError);

/// The error of the `regex` crate for a pattern that does not compile. The
/// library carries it through unread.
#[verifier::external_type_specification]
#[verifier::external_body]
pub struct ExRegexError(regex::Error);

/// Whether the regular expression `pattern` matches somewhere in `text`;
/// `None` where `pattern` does not compile.
pub uninterp spec fn regex_match(pattern: Seq<char>, text: Seq<char>) -> Option<bool>;

/// Compiles `pattern` with `Regex::new` and calls `Regex::is_match` on
/// `text`: whether the pattern matches somewhere in the text, `None` where
/// the pattern does not compile.
#[verifier::external_body]
pub(crate) fn pattern_matches(pattern: &str, text: &str) -> (r: Option<bool>)
    ensures
        r == regex_match(pattern@, text@),
{
    match Regex::new(pattern) {
        Ok(compiled) => Some(compiled.is_match(text)),
        Err(_) => None,
    }
}

/// Why a cross-origin request is refused.
#[derive(Debug)]
pub enum CorsError {
    /// The server has no cross-origin configuration.
    MissingCors,
    /// The request names no origin.
    MissingOrigin,
    /// The origin of the request is no URL.
    BadOrigin(url::ParseError),
    /// Allowed origins that are no URLs.
    OpaqueAllowedOrigin(Vec<String>),
    /// A preflight request names no method.
    MissingRequestMethod,
    /// A preflight request names a method that is none.
    BadRequestMethod,
    /// A preflight request names no headers.
    MissingRequestHeaders,
    /// The origin is not among the allowed origins.
    OriginNotAllowed(String),
    /// The method is not among the allowed methods.
    MethodNotAllowed(String),
    /// A pattern for allowed origins does not compile.
    RegexError(regex::Error),
    /// A header is not among the allowed headers.
    HeadersNotAllowed,
    /// Credentials are allowed together with the wildcard origin.
    CredentialsWithWildcardOrigin,
}

/// Everything, or the listed items only.
#[derive(Debug, Clone, PartialEq, Eq)]
pub enum AllOrSome<T> {
    /// Everything.
    All,
    /// The listed items only.
    Listed(T),
}

impl<T> AllOrSome<T> {
    /// Everything.
    pub fn all() -> (r: Self)
        ensures
            r is All,
    {
        AllOrSome::All
    }

    /// The listed items only.
    pub fn some(items: T) -> (r: Self)
        ensures
            r == AllOrSome::Listed(items),
    {
        AllOrSome::Listed(items)
    }

    /// Whether this is everything.
    pub fn is_all(&self) -> (b: bool)
        ensures
            b == (self is All),
    {
        match self {
            AllOrSome::All => true,
            AllOrSome::Listed(_) => false,
        }
    }

    /// Whether this is a list of items.
    pub fn is_some(&self) -> (b: bool)
        ensures
            b == (self is Listed),
    {
        match self {
            AllOrSome::All => false,
            AllOrSome::Listed(_) => true,
        }
    }

    /// The listed items; an error where this is everything.
    pub fn unwrap(self) -> (r: Result<T, ()>)
        ensures
            r == match self {
                AllOrSome::Listed(items) => Ok::<T, ()>(items),
                AllOrSome::All => Err::<T, ()>(()),
            },
    {
        match self {
            AllOrSome::Listed(items) => Ok(items),
            AllOrSome::All => Err(()),
        }
    }
}

impl<T> Default for AllOrSome<T> {
    /// Everything.
    fn default() -> (r: Self)
        ensures
            r is All,
    {
        AllOrSome::All
    }
}

/// The texts of strings, in order.
pub open spec fn texts(items: Seq<String>) -> Seq<Seq<char>> {
    Seq::new(items.len(), |i: int| items[i]@)
}

/// Whether `text` is among `items`.
pub open spec fn contains_text(items: Seq<Seq<char>>, text: Seq<char>) -> bool {
    exists|i: int| 0 <= i < items.len() && #[trigger] items[i] == text
}

/// Whether one of `patterns` compiles and matches `text`.
pub open spec fn any_pattern_matches(patterns: Seq<Seq<char>>, text: Seq<char>) -> bool {
    exists|i: int| 0 <= i < patterns.len() && regex_match(#[trigger] patterns[i], text) == Some(true)
}

/// The items with `separator` between each two of them.
pub open spec fn joined(items: Seq<Seq<char>>, separator: Seq<char>) -> Seq<char>
    decreases items.len(),
{
    if items.len() == 0 {
        Seq::<char>::empty()
    } else if items.len() == 1 {
        items[0]
    } else {
        joined(items.drop_last(), separator) + separator + items.last()
    }
}

/// The texts of name-value pairs, in order.
pub open spec fn pairs(headers: Seq<(String, String)>) -> Seq<(Seq<char>, Seq<char>)> {
    Seq::new(headers.len(), |i: int| (headers[i].0@, headers[i].1@))
}

/// The items with `separator` between each two of them.
pub fn join(items: &Vec<String>, separator: &str) -> (text: String)
    ensures
        text@ == joined(texts(items@), separator@),
{
    let mut text: String = String::new();
    let mut i: usize = 0;
    let ghost all = texts(items@);
    while i < items.len()
        invariant
            i <= items@.len(),
            all == texts(items@),
            text@ == joined(all.take(i as int), separator@),
        decreases items@.len() - i,
    {
        proof {
            assert(all.take(i + 1).drop_last() =~= all.take(i as int));
            assert(all.take(i + 1).last() == items@[i as int]@);
            if i == 0 {
                assert(all.take(0) =~= Seq::<Seq<char>>::empty());
            }
        }
        if i > 0 {
            text.append(separator);
        }
        text.append(items[i].as_str());
        proof {
            if i == 0 {
                assert(text@ =~= items@[0]@);
            }
        }
        i = i + 1;
    }
    assert(all.take(i as int) =~= all);
    text
}

/// The origins that a server admits besides none or all.
#[derive(Debug, Clone, PartialEq, Eq)]
pub struct Origins {
    /// Whether a request without origin is admitted.
    pub allow_null: bool,
    /// Origins that are admitted as they are written.
    pub exact: Option<Vec<String>>,
    /// Regular expressions whose matches are admitted.
    pub regex: Option<Vec<String>>,
}

impl Origins {
    /// Whether `origin` is admitted: it is empty and that is allowed, or it
    /// is one of the exact origins, or one of the patterns matches it.
    pub open spec fn admits(self, origin: Seq<char>) -> bool {
        ||| origin.len() == 0 && self.allow_null
        ||| self.exact matches Some(exact) && contains_text(texts(exact@), origin)
        ||| self.regex matches Some(patterns) && any_pattern_matches(texts(patterns@), origin)
    }
}

impl Default for Origins {
    /// No origin is admitted.
    fn default() -> (o: Self)
        ensures
            !o.allow_null,
            o.exact is None,
            o.regex is None,
    {
        Origins { allow_null: false, exact: None, regex: None }
    }
}

/// The origins that a server admits.
pub type AllowedOrigins = AllOrSome<Origins>;

/// The names of the methods that a server admits.
pub type AllowedMethods = Vec<String>;

/// The headers that a server admits.
pub type AllowedHeaders = AllOrSome<Vec<String>>;

/// The cross-origin configuration of a server.
#[derive(Debug, Clone, PartialEq, Eq)]
pub struct CorsOptions {
    /// The origins that are admitted.
    pub allowed_origins: AllowedOrigins,
    /// The names of the methods that are admitted.
    pub allowed_methods: AllowedMethods,
    /// The request headers that are admitted.
    pub allowed_headers: AllowedHeaders,
    /// Whether requests may carry credentials.
    pub allow_credentials: bool,
    /// The response headers that scripts may read.
    pub expose_headers: Vec<String>,
    /// For how many seconds a preflight response may be cached.
    pub max_age: Option<usize>,
    /// Whether the wildcard is sent in place of the origin where every
    /// origin is admitted.
    pub send_wildcard: bool,
}

impl Default for CorsOptions {
    /// Every origin and header is admitted, no method; no credentials, no
    /// exposed headers, no caching, no wildcard.
    fn default() -> (o: Self)
        ensures
            o.allowed_origins is All,
            o.allowed_methods@.len() == 0,
            o.allowed_headers is All,
            !o.allow_credentials,
            o.expose_headers@.len() == 0,
            o.max_age is None,
            !o.send_wildcard,
    {
        CorsOptions {
            allowed_origins: AllOrSome::All,
            allowed_methods: Vec::new(),
            allowed_headers: AllOrSome::All,
            allow_credentials: false,
            expose_headers: Vec::new(),
            max_age: None,
            send_wildcard: false,
        }
    }
}

impl CorsOptions {
    /// The same configuration with the given admitted origins.
    pub fn allowed_origins(self, allowed: AllowedOrigins) -> (o: Self)
        ensures
            o == (CorsOptions { allowed_origins: allowed, ..self }),
    {
        let mut o = self;
        o.allowed_origins = allowed;
        o
    }

    /// The same configuration with the given admitted methods.
    pub fn allowed_methods(self, allowed: AllowedMethods) -> (o: Self)
        ensures
            o == (CorsOptions { allowed_methods: allowed, ..self }),
    {
        let mut o = self;
        o.allowed_methods = allowed;
        o
    }

    /// The same configuration with the given admitted headers.
    pub fn allowed_headers(self, allowed: AllowedHeaders) -> (o: Self)
        ensures
            o == (CorsOptions { allowed_headers: allowed, ..self }),
    {
        let mut o = self;
        o.allowed_headers = allowed;
        o
    }

    /// The same configuration with credentials allowed or not.
    pub fn allow_credentials(self, allow: bool) -> (o: Self)
        ensures
            o == (CorsOptions { allow_credentials: allow, ..self }),
    {
        let mut o = self;
        o.allow_credentials = allow;
        o
    }

    /// The same configuration with the given exposed headers.
    pub fn expose_headers(self, headers: Vec<String>) -> (o: Self)
        ensures
            o == (CorsOptions { expose_headers: headers, ..self }),
    {
        let mut o = self;
        o.expose_headers = headers;
        o
    }

    /// The same configuration with the given caching time; zero is none.
    pub fn max_age(self, max_age: usize) -> (o: Self)
        ensures
            o == (CorsOptions {
                max_age: if max_age > 0 {
                    Some(max_age)
                } else {
                    None
                },
                ..self
            }),
    {
        let mut o = self;
        o.max_age = if max_age > 0 {
            Some(max_age)
        } else {
            None
        };
        o
    }

    /// The same configuration with the wildcard sent or not.
    pub fn send_wildcard(self, send: bool) -> (o: Self)
        ensures
            o == (CorsOptions { send_wildcard: send, ..self }),
    {
        let mut o = self;
        o.send_wildcard = send;
        o
    }

    /// Whether `origin` is admitted.
    pub open spec fn admits(self, origin: Seq<char>) -> bool {
        match self.allowed_origins {
            AllOrSome::All => true,
            AllOrSome::Listed(origins) => origins.admits(origin),
        }
    }

    /// The value of the `Access-Control-Allow-Origin` header for an
    /// admitted origin: the wildcard where it is to be sent and every
    /// origin is admitted, else the origin.
    pub open spec fn origin_value(self, origin: Seq<char>) -> Seq<char> {
        if self.send_wildcard && self.allowed_origins is All {
            "*"@
        } else {
            origin
        }
    }

    /// The value of the `Access-Control-Allow-Headers` header.
    pub open spec fn headers_value(self) -> Seq<char> {
        match self.allowed_headers {
            AllOrSome::All => "*"@,
            AllOrSome::Listed(headers) => joined(texts(headers@), ", "@),
        }
    }

    /// The cross-origin headers of the response to a request with the
    /// given origin.
    pub open spec fn response_headers(self, origin: Option<Seq<char>>) -> Seq<
        (Seq<char>, Seq<char>),
    > {
        (match origin {
            Some(o) => if self.admits(o) {
                seq![("Access-Control-Allow-Origin"@, self.origin_value(o))]
            } else {
                Seq::<(Seq<char>, Seq<char>)>::empty()
            },
            None => Seq::<(Seq<char>, Seq<char>)>::empty(),
        }) + seq![
            ("Access-Control-Allow-Methods"@, joined(texts(self.allowed_methods@), ", "@)),
            ("Access-Control-Allow-Headers"@, self.headers_value()),
        ] + (if self.allow_credentials && !self.send_wildcard {
            seq![("Access-Control-Allow-Credentials"@, "true"@)]
        } else {
            Seq::<(Seq<char>, Seq<char>)>::empty()
        }) + (if self.expose_headers@.len() > 0 {
            seq![("Access-Control-Expose-Headers"@, joined(texts(self.expose_headers@), ", "@))]
        } else {
            Seq::<(Seq<char>, Seq<char>)>::empty()
        }) + (match self.max_age {
            Some(age) => seq![("Access-Control-Max-Age"@, decimal(age as nat))],
            None => Seq::<(Seq<char>, Seq<char>)>::empty(),
        })
    }
}

/// Whether `text` is one of `items`.
fn is_listed(items: &Vec<String>, text: &Vec<char>) -> (found: bool)
    ensures
        found == contains_text(texts(items@), text@),
{
    let mut i: usize = 0;
    while i < items.len()
        invariant
            i <= items@.len(),
            forall|j: int| 0 <= j < i ==> #[trigger] texts(items@)[j] != text@,
        decreases items@.len() - i,
    {
        if same_text(text, items[i].as_str()) {
            assert(texts(items@)[i as int] == text@);
            return true;
        }
        i = i + 1;
    }
    false
}

/// Whether one of `patterns` compiles and matches `text`.
fn is_matched(patterns: &Vec<String>, text: &str) -> (found: bool)
    ensures
        found == any_pattern_matches(texts(patterns@), text@),
{
    let mut i: usize = 0;
    while i < patterns.len()
        invariant
            i <= patterns@.len(),
            forall|j: int|
                0 <= j < i ==> regex_match(#[trigger] texts(patterns@)[j], text@) != Some(true),
        decreases patterns@.len() - i,
    {
        match pattern_matches(patterns[i].as_str(), text) {
            Some(true) => {
                assert(regex_match(texts(patterns@)[i as int], text@) == Some(true));
                return true;
            },
            _ => {},
        }
        i = i + 1;
    }
    false
}

/// The part of a server that answers cross-origin requests.
#[derive(Debug, Clone)]
pub struct CorsMiddleware {
    options: CorsOptions,
}

impl CorsMiddleware {
    /// The configuration of the middleware.
    pub closed spec fn spec_options(self) -> CorsOptions {
        self.options
    }

    /// A middleware with the given configuration.
    pub fn new(options: CorsOptions) -> (m: Self)
        ensures
            m.spec_options() == options,
    {
        CorsMiddleware { options }
    }

    /// The configuration of the middleware.
    pub fn options(&self) -> (o: &CorsOptions)
        ensures
            *o == self.spec_options(),
    {
        &self.options
    }

    /// Whether a request is a preflight request: its method is `OPTIONS`
    /// and it names an origin and the method of the request to come.
    pub fn is_preflight_request(
        &self,
        method: &str,
        has_origin: bool,
        has_request_method: bool,
    ) -> (b: bool)
        ensures
            b == (method@ == "OPTIONS"@ && has_origin && has_request_method),
    {
        let m: Vec<char> = chars_of(method);
        same_text(&m, "OPTIONS") && has_origin && has_request_method
    }

    /// Admits `origin` or refuses it with `OriginNotAllowed`.
    pub fn validate_origin<'a>(&self, origin: &'a str) -> (r: Result<&'a str, CorsError>)
        ensures
            r is Ok <==> self.spec_options().admits(origin@),
            r matches Ok(o) ==> o@ == origin@,
            r matches Err(e) ==> e matches CorsError::OriginNotAllowed(s) && s@ == origin@,
    {
        match &self.options.allowed_origins {
            AllOrSome::All => Ok(origin),
            AllOrSome::Listed(origins) => {
                let text: Vec<char> = chars_of(origin);
                if text.len() == 0 && origins.allow_null {
                    return Ok(origin);
                }
                match &origins.exact {
                    Some(exact) => {
                        if is_listed(exact, &text) {
                            return Ok(origin);
                        }
                    },
                    None => {},
                }
                match &origins.regex {
                    Some(patterns) => {
                        if is_matched(patterns, origin) {
                            return Ok(origin);
                        }
                    },
                    None => {},
                }
                Err(CorsError::OriginNotAllowed(origin.to_owned()))
            },
        }
    }

    /// The cross-origin headers of the response to a request with the
    /// given origin: the admitted origin or the wildcard, the admitted
    /// methods and headers, and, where configured, the credentials flag,
    /// the exposed headers and the caching time. Credentials are never
    /// announced where the wildcard is to be sent.
    pub fn generate_cors_headers(&self, origin: Option<&str>) -> (headers: Vec<(String, String)>)
        ensures
            pairs(headers@) == self.spec_options().response_headers(
                match origin {
                    Some(o) => Some(o@),
                    None => None,
                },
            ),
    {
        let mut headers: Vec<(String, String)> = Vec::new();
        match origin {
            Some(o) => {
                match self.validate_origin(o) {
                    Ok(valid) => {
                        if self.options.send_wildcard && self.options.allowed_origins.is_all() {
                            headers.push(("Access-Control-Allow-Origin".to_owned(), "*".to_owned()));
                        } else {
                            headers.push(
                                ("Access-Control-Allow-Origin".to_owned(), valid.to_owned()),
                            );
                        }
                    },
                    Err(_) => {},
                }
            },
            None => {},
        }
        headers.push(
            ("Access-Control-Allow-Methods".to_owned(), join(&self.options.allowed_methods, ", ")),
        );
        let allowed_headers: String = match &self.options.allowed_headers {
            AllOrSome::All => "*".to_owned(),
            AllOrSome::Listed(list) => join(list, ", "),
        };
        headers.push(("Access-Control-Allow-Headers".to_owned(), allowed_headers));
        if self.options.allow_credentials && !self.options.send_wildcard {
            headers.push(("Access-Control-Allow-Credentials".to_owned(), "true".to_owned()));
        }
        if self.options.expose_headers.len() > 0 {
            headers.push(
                (
                    "Access-Control-Expose-Headers".to_owned(),
                    join(&self.options.expose_headers, ", "),
                ),
            );
        }
        match self.options.max_age {
            Some(age) => {
                let mut value: String = String::new();
                push_decimal(&mut value, age as u64);
                assert(value@ =~= decimal(age as nat));
                headers.push(("Access-Control-Max-Age".to_owned(), value));
            },
            None => {},
        }
        assert(pairs(headers@) =~= self.spec_options().response_headers(
            match origin {
                Some(o) => Some(o@),
                None => None,
            },
        ));
        headers
    }
}

/// What the middleware answers to a request.
#[derive(Debug, Clone, PartialEq, Eq)]
pub struct CorsAnswer {
    /// The HTTP status of the response.
    pub status: u16,
    /// The body of the response.
    pub body: String,
    /// The cross-origin headers of the response.
    pub headers: Vec<(String, String)>,
}

impl CorsMiddleware {
    /// Answers a request: a preflight request with status 200 and the body
    /// `Ok`, any other with status 501 and the body `Not Implemented`;
    /// both with the cross-origin headers for the request's origin.
    pub fn answer(&self, method: &str, origin: Option<&str>, has_request_method: bool) -> (answer:
        CorsAnswer)
        ensures
            pairs(answer.headers@) == self.spec_options().response_headers(
                match origin {
                    Some(o) => Some(o@),
                    None => None,
                },
            ),
            method@ == "OPTIONS"@ && origin is Some && has_request_method ==> answer.status == 200
                && answer.body@ == "Ok"@,
            !(method@ == "OPTIONS"@ && origin is Some && has_request_method) ==> answer.status
                == 501 && answer.body@ == "Not Implemented"@,
    {
        let headers: Vec<(String, String)> = self.generate_cors_headers(origin);
        if self.is_preflight_request(method, origin.is_some(), has_request_method) {
            CorsAnswer { status: 200, body: "Ok".to_owned(), headers }
        } else {
            CorsAnswer { status: 501, body: "Not Implemented".to_owned(), headers }
        }
    }
}

/// Whether a header of the given name is among `headers`.
pub open spec fn has_header(headers: Seq<(Seq<char>, Seq<char>)>, name: Seq<char>) -> bool {
    exists|j: int| 0 <= j < headers.len() && (#[trigger] headers[j]).0 == name
}

/// Security rule: a response announces credentials only where the wildcard
/// is not to be sent; the origin that it admits is then the origin of the
/// request, never the wildcard in its place.
pub proof fn law_no_credentials_with_wildcard(options: CorsOptions, origin: Option<Seq<char>>)
    ensures
        has_header(options.response_headers(origin), "Access-Control-Allow-Credentials"@) <==> (
        options.allow_credentials && !options.send_wildcard),
        has_header(options.response_headers(origin), "Access-Control-Allow-Credentials"@)
            ==> forall|i: int|
            0 <= i < options.response_headers(origin).len() && (
            #[trigger] options.response_headers(origin)[i]).0 == "Access-Control-Allow-Origin"@
                ==> origin is Some && options.response_headers(origin)[i].1 == origin->0,
{
    reveal_strlit("Access-Control-Allow-Origin");
    reveal_strlit("Access-Control-Allow-Methods");
    reveal_strlit("Access-Control-Allow-Headers");
    reveal_strlit("Access-Control-Allow-Credentials");
    reveal_strlit("Access-Control-Expose-Headers");
    reveal_strlit("Access-Control-Max-Age");
    assert("Access-Control-Allow-Origin"@.len() == 27);
    assert("Access-Control-Allow-Methods"@.len() == 28);
    assert("Access-Control-Allow-Headers"@.len() == 28);
    assert("Access-Control-Allow-Credentials"@.len() == 32);
    assert("Access-Control-Expose-Headers"@.len() == 29);
    assert("Access-Control-Max-Age"@.len() == 22);
    let h = options.response_headers(origin);
    let first: int = match origin {
        Some(o) => if options.admits(o) {
            1
        } else {
            0
        },
        None => 0,
    };
    if options.allow_credentials && !options.send_wildcard {
        assert(h[first + 2].0 == "Access-Control-Allow-Credentials"@);
    }
}

} // verus!
