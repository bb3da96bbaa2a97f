//! Options for serialising the handshake cookie.

use vstd::prelude::*;
use chrono::NaiveDateTime;
use crate::text::chars_of;
use crate::text::same_text;

verus! {

/// The date and time type of the `chrono` crate, without time zone. The
/// library carries it through unread.
#[verifier::external_type_specification]
#[verifier::external_body]
pub struct ExNaiveDateTime(NaiveDateTime);

/// The priority of a cookie.
#[derive(Debug, Clone, Copy, PartialEq, Eq, Structural)]
pub enum PriorityLevel {
    /// Low priority.
    Low,
    /// Medium priority, which clients assume where none is set.
    Medium,
    /// High priority.
    High,
}

/// The priority that `s` names, if any.
pub open spec fn priority_of(s: Seq<char>) -> Option<PriorityLevel> {
    if s == "low"@ {
        Some(PriorityLevel::Low)
    } else if s == "medium"@ {
        Some(PriorityLevel::Medium)
    } else if s == "high"@ {
        Some(PriorityLevel::High)
    } else {
        None
    }
}

impl PriorityLevel {
    /// The name of the priority.
    pub open spec fn spec_str(self) -> Seq<char> {
        match self {
            PriorityLevel::Low => "low"@,
            PriorityLevel::Medium => "medium"@,
            PriorityLevel::High => "high"@,
        }
    }

    /// The priority named `val`; `None` for any other string.
    pub fn from_str(val: &str) -> (r: Option<Self>)
        ensures
            r == priority_of(val@),
    {
        let v: Vec<char> = chars_of(val);
        if same_text(&v, "low") {
            Some(PriorityLevel::Low)
        } else if same_text(&v, "medium") {
            Some(PriorityLevel::Medium)
        } else if same_text(&v, "high") {
            Some(PriorityLevel::High)
        } else {
            None
        }
    }

    /// The name of the priority.
    pub fn to_str(&self) -> (s: &'static str)
        ensures
            s@ == self.spec_str(),
    {
        match self {
            PriorityLevel::Low => "low",
            PriorityLevel::Medium => "medium",
            PriorityLevel::High => "high",
        }
    }
}

/// The same-site enforcement of a cookie.
#[derive(Debug, Clone, Copy, PartialEq, Eq, Structural)]
pub enum SameSiteSetting {
    /// Strict same-site enforcement.
    Strict,
    /// Lax same-site enforcement.
    Lax,
    /// An explicit cross-site cookie.
    CrossSite,
}

/// The same-site setting that `s` names, if any.
pub open spec fn same_site_of(s: Seq<char>) -> Option<SameSiteSetting> {
    if s == "strict"@ {
        Some(SameSiteSetting::Strict)
    } else if s == "lax"@ {
        Some(SameSiteSetting::Lax)
    } else if s == "none"@ {
        Some(SameSiteSetting::CrossSite)
    } else {
        None
    }
}

impl SameSiteSetting {
    /// The name of the setting.
    pub open spec fn spec_str(self) -> Seq<char> {
        match self {
            SameSiteSetting::Strict => "strict"@,
            SameSiteSetting::Lax => "lax"@,
            SameSiteSetting::CrossSite => "none"@,
        }
    }

    /// The setting named `val`; `None` for any other string.
    pub fn from_str(val: &str) -> (r: Option<Self>)
        ensures
            r == same_site_of(val@),
    {
        let v: Vec<char> = chars_of(val);
        if same_text(&v, "strict") {
            Some(SameSiteSetting::Strict)
        } else if same_text(&v, "lax") {
            Some(SameSiteSetting::Lax)
        } else if same_text(&v, "none") {
            Some(SameSiteSetting::CrossSite)
        } else {
            None
        }
    }

    /// The name of the setting.
    pub fn to_str(&self) -> (s: &'static str)
        ensures
            s@ == self.spec_str(),
    {
        match self {
            SameSiteSetting::Strict => "strict",
            SameSiteSetting::Lax => "lax",
            SameSiteSetting::CrossSite => "none",
        }
    }
}

/// Every priority is found again under its name, and only there.
pub proof fn law_priority_names(p: PriorityLevel, s: Seq<char>)
    ensures
        priority_of(p.spec_str()) == Some(p),
        priority_of(s) == Some(p) <==> s == p.spec_str(),
{
    reveal_strlit("low");
    reveal_strlit("medium");
    reveal_strlit("high");
    assert("low"@[0] == 'l' && "medium"@[0] == 'm' && "high"@[0] == 'h');
}

/// Every same-site setting is found again under its name, and only there.
pub proof fn law_same_site_names(p: SameSiteSetting, s: Seq<char>)
    ensures
        same_site_of(p.spec_str()) == Some(p),
        same_site_of(s) == Some(p) <==> s == p.spec_str(),
{
    reveal_strlit("strict");
    reveal_strlit("lax");
    reveal_strlit("none");
    assert("strict"@[0] == 's' && "lax"@[0] == 'l' && "none"@[0] == 'n');
}

/// The attributes of the cookie that carries the session id.
#[derive(Debug, Clone, PartialEq, Eq)]
pub struct CookieSerializeOptions {
    /// The name of the cookie.
    pub name: String,
    /// The `Domain` attribute; unset, the cookie applies to the current
    /// domain only.
    pub domain: Option<String>,
    /// The `Expires` attribute; unset, the cookie ends with the session.
    pub expires: Option<NaiveDateTime>,
    /// The `HttpOnly` attribute.
    pub http_only: bool,
    /// The `Max-Age` attribute, in seconds.
    pub max_age: Option<i32>,
    /// The `Partitioned` attribute.
    pub partitioned: bool,
    /// The `Path` attribute.
    pub path: Option<String>,
    /// The `Priority` attribute.
    pub priority: Option<PriorityLevel>,
    /// The `SameSite` attribute.
    pub same_site: Option<SameSiteSetting>,
    /// The `Secure` attribute.
    pub secure: bool,
}

impl Default for CookieSerializeOptions {
    /// The handshake cookie: named `greeno`, `HttpOnly`, every other
    /// attribute unset.
    fn default() -> (o: Self)
        ensures
            o.name@ == "greeno"@,
            o.domain is None,
            o.expires is None,
            o.http_only,
            o.max_age is None,
            !o.partitioned,
            o.path is None,
            o.priority is None,
            o.same_site is None,
            !o.secure,
    {
        CookieSerializeOptions {
            name: "greeno".to_owned(),
            domain: None,
            expires: None,
            http_only: true,
            max_age: None,
            partitioned: false,
            path: None,
            priority: None,
            same_site: None,
            secure: false,
        }
    }
}

impl CookieSerializeOptions {
    /// The name of the cookie.
    pub fn name(&self) -> (v: &str)
        ensures
            v@ == self.name@,
    {
        self.name.as_str()
    }

    /// Sets the name of the cookie and leaves every other attribute as it is.
    pub fn set_name(&mut self, name: String)
        ensures
            *final(self) == (CookieSerializeOptions { name, ..*old(self) }),
    {
        self.name = name;
    }

    /// The `Domain` attribute.
    pub fn domain(&self) -> (v: &Option<String>)
        ensures
            *v == self.domain,
    {
        &self.domain
    }

    /// Sets the `Domain` attribute and leaves every other attribute as it is.
    pub fn set_domain(&mut self, domain: Option<String>)
        ensures
            *final(self) == (CookieSerializeOptions { domain, ..*old(self) }),
    {
        self.domain = domain;
    }

    /// The `Expires` attribute.
    pub fn expires(&self) -> (v: Option<NaiveDateTime>)
        ensures
            v == self.expires,
    {
        self.expires
    }

    /// Sets the `Expires` attribute and leaves every other attribute as it is.
    pub fn set_expires(&mut self, expires: Option<NaiveDateTime>)
        ensures
            *final(self) == (CookieSerializeOptions { expires, ..*old(self) }),
    {
        self.expires = expires;
    }

    /// The `HttpOnly` attribute.
    pub fn http_only(&self) -> (v: bool)
        ensures
            v == self.http_only,
    {
        self.http_only
    }

    /// Sets the `HttpOnly` attribute and leaves every other attribute as it is.
    pub fn set_http_only(&mut self, http_only: bool)
        ensures
            *final(self) == (CookieSerializeOptions { http_only, ..*old(self) }),
    {
        self.http_only = http_only;
    }

    /// The `Max-Age` attribute.
    pub fn max_age(&self) -> (v: Option<i32>)
        ensures
            v == self.max_age,
    {
        self.max_age
    }

    /// Sets the `Max-Age` attribute and leaves every other attribute as it is.
    pub fn set_max_age(&mut self, max_age: Option<i32>)
        ensures
            *final(self) == (CookieSerializeOptions { max_age, ..*old(self) }),
    {
        self.max_age = max_age;
    }

    /// The `Partitioned` attribute.
    pub fn partitioned(&self) -> (v: bool)
        ensures
            v == self.partitioned,
    {
        self.partitioned
    }

    /// Sets the `Partitioned` attribute and leaves every other attribute as it is.
    pub fn set_partitioned(&mut self, partitioned: bool)
        ensures
            *final(self) == (CookieSerializeOptions { partitioned, ..*old(self) }),
    {
        self.partitioned = partitioned;
    }

    /// The `Path` attribute.
    pub fn path(&self) -> (v: &Option<String>)
        ensures
            *v == self.path,
    {
        &self.path
    }

    /// Sets the `Path` attribute and leaves every other attribute as it is.
    pub fn set_path(&mut self, path: Option<String>)
        ensures
            *final(self) == (CookieSerializeOptions { path, ..*old(self) }),
    {
        self.path = path;
    }

    /// The `Priority` attribute.
    pub fn priority(&self) -> (v: &Option<PriorityLevel>)
        ensures
            *v == self.priority,
    {
        &self.priority
    }

    /// Sets the `Priority` attribute and leaves every other attribute as it is.
    pub fn set_priority(&mut self, priority: Option<PriorityLevel>)
        ensures
            *final(self) == (CookieSerializeOptions { priority, ..*old(self) }),
    {
        self.priority = priority;
    }

    /// The `SameSite` attribute.
    pub fn same_site(&self) -> (v: &Option<SameSiteSetting>)
        ensures
            *v == self.same_site,
    {
        &self.same_site
    }

    /// Sets the `SameSite` attribute and leaves every other attribute as it is.
    pub fn set_same_site(&mut self, same_site: Option<SameSiteSetting>)
        ensures
            *final(self) == (CookieSerializeOptions { same_site, ..*old(self) }),
    {
        self.same_site = same_site;
    }

    /// The `Secure` attribute.
    pub fn secure(&self) -> (v: bool)
        ensures
            v == self.secure,
    {
        self.secure
    }

    /// Sets the `Secure` attribute and leaves every other attribute as it is.
    pub fn set_secure(&mut self, secure: bool)
        ensures
            *final(self) == (CookieSerializeOptions { secure, ..*old(self) }),
    {
        self.secure = secure;
    }
}

} // verus!
