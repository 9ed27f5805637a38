use vstd::prelude::*;
use crate::value::{JsonValue, SpecJson, spec_get, get_key};
use crate::assoc::spec_set;
use crate::error::QueryError;

verus! {

/// The user identity of a session: either the blank, logged-out state or
/// the identity reported by a successful login.
pub struct MWuser {
    pub lgusername: String,
    pub lguserid: u64,
    pub is_logged_in: bool,
}

/// Whether a login response reports success.
pub open spec fn login_success(login: SpecJson) -> bool {
    spec_get(login, "result"@) == Option::Some(SpecJson::Text("Success"@))
}

/// The user name in a login response, when present as a string.
pub open spec fn login_username(login: SpecJson) -> Option<Seq<char>> {
    match spec_get(login, "lgusername"@) {
        Option::Some(v) => match v {
            SpecJson::Text(s) => Option::Some(s),
            _ => Option::None,
        },
        _ => Option::None,
    }
}

/// The numeric user id in a login response, when present and nonnegative.
pub open spec fn login_userid(login: SpecJson) -> Option<int> {
    match spec_get(login, "lguserid"@) {
        Option::Some(v) => match v {
            SpecJson::Num(n) => if 0 <= n {
                Option::Some(n)
            } else {
                Option::None
            },
            _ => Option::None,
        },
        _ => Option::None,
    }
}

impl MWuser {
    /// Returns a new, blank, not-logged-in user.
    pub fn new() -> (u: MWuser)
        ensures
            u.lgusername@ == Seq::<char>::empty(),
            u.lguserid == 0,
            !u.is_logged_in,
    {
        MWuser { lgusername: String::new(), lguserid: 0, is_logged_in: false }
    }

    /// Tries to set the user identity from a login response. A response
    /// that does not report success marks the user logged out, without
    /// error; one that reports success but lacks a string user name or a
    /// nonnegative numeric id is rejected, leaving the user unchanged.
    pub fn set_from_login(&mut self, login: &JsonValue) -> (r: Result<(), QueryError>)
        ensures
            !login_success(login@) ==> {
                &&& r == Result::<(), QueryError>::Ok(())
                &&& !final(self).is_logged_in
                &&& final(self).lgusername == old(self).lgusername
                &&& final(self).lguserid == old(self).lguserid
            },
            login_success(login@) ==> match (login_username(login@), login_userid(login@)) {
                (Option::Some(u), Option::Some(n)) => {
                    &&& r == Result::<(), QueryError>::Ok(())
                    &&& final(self).is_logged_in
                    &&& final(self).lgusername@ == u
                    &&& final(self).lguserid == n
                },
                _ => r == Result::<(), QueryError>::Err(QueryError::AuthParse) && *final(self)
                    == *old(self),
            },
    {
        let result_key: String = "result".to_owned();
        let success_text: String = "Success".to_owned();
        let success = match get_key(login, &result_key) {
            Option::Some(v) => match v {
                JsonValue::Text(s) => *s == success_text,
                _ => false,
            },
            Option::None => false,
        };
        if success {
            let name_key: String = "lgusername".to_owned();
            let name = match get_key(login, &name_key) {
                Option::Some(v) => match v {
                    JsonValue::Text(s) => s.clone(),
                    _ => {
                        return Result::Err(QueryError::AuthParse);
                    },
                },
                Option::None => {
                    return Result::Err(QueryError::AuthParse);
                },
            };
            let id_key: String = "lguserid".to_owned();
            let id = match get_key(login, &id_key) {
                Option::Some(v) => match v {
                    JsonValue::Num(n) => {
                        if *n >= 0 {
                            *n as u64
                        } else {
                            return Result::Err(QueryError::AuthParse);
                        }
                    },
                    _ => {
                        return Result::Err(QueryError::AuthParse);
                    },
                },
                Option::None => {
                    return Result::Err(QueryError::AuthParse);
                },
            };
            self.lgusername = name;
            self.lguserid = id;
            self.is_logged_in = true;
            Result::Ok(())
        } else {
            self.is_logged_in = false;
            Result::Ok(())
        }
    }
}

/// The name/value pair a set-cookie directive carries, or nothing when the
/// directive does not parse; a function of the directive's text alone.
pub uninterp spec fn cookie_parse_of(s: Seq<char>) -> Option<(Seq<char>, Seq<char>)>;

/// Relies on cookie::Cookie::parse: parsing a set-cookie directive depends
/// on its text alone; on success, Cookie::name and Cookie::value return
/// the parsed cookie's name and value.
#[verifier::external_body]
pub(crate) fn parse_cookie(s: &String) -> (r: Option<(String, String)>)
    ensures
        match r {
            Option::Some(p) => cookie_parse_of(s@) == Option::Some((p.0@, p.1@)),
            Option::None => cookie_parse_of(s@) is None,
        },
{
    match cookie::Cookie::parse(s.clone()) {
        Ok(c) => Option::Some((c.name().to_string(), c.value().to_string())),
        Err(_) => Option::None,
    }
}

/// The characters of each header line.
pub open spec fn header_views(hs: Seq<String>) -> Seq<Seq<char>> {
    hs.map_values(|s: String| s@)
}

/// The cookie jar after applying, in order, every set-cookie directive of a
/// response from index `i` on: each directive that parses inserts or
/// overwrites the entry keyed by its cookie's name; one that does not parse
/// leaves the jar as it is.
pub open spec fn jar_after(
    jar: Seq<(Seq<char>, Seq<char>)>,
    headers: Seq<Seq<char>>,
    i: int,
) -> Seq<(Seq<char>, Seq<char>)>
    decreases headers.len() - i,
{
    if i < 0 || i >= headers.len() {
        jar
    } else {
        let next = match cookie_parse_of(headers[i]) {
            Option::Some(p) => spec_set(jar, p.0, p.1),
            Option::None => jar,
        };
        jar_after(next, headers, i + 1)
    }
}

/// The value of the last directive at index `i` or later that parses to a
/// cookie named `n`, if any.
pub open spec fn last_cookie_for(headers: Seq<Seq<char>>, n: Seq<char>, i: int) -> Option<
    Seq<char>,
>
    decreases headers.len() - i,
{
    if i < 0 || i >= headers.len() {
        Option::None
    } else {
        let rest = last_cookie_for(headers, n, i + 1);
        if rest is Some {
            rest
        } else {
            match cookie_parse_of(headers[i]) {
                Option::Some(p) => if p.0 == n {
                    Option::Some(p.1)
                } else {
                    Option::None
                },
                Option::None => Option::None,
            }
        }
    }
}

/// Applying a response's directives leaves, under each cookie name, the
/// value of the last directive of that name that parsed — later writes
/// win — and leaves every name the response does not mention as it was:
/// the jar is the union of what it held and what the response set.
pub proof fn lemma_jar_after_lookup(
    jar: Seq<(Seq<char>, Seq<char>)>,
    headers: Seq<Seq<char>>,
    i: int,
    n: Seq<char>,
)
    requires
        0 <= i,
    ensures
        crate::assoc::spec_lookup(jar_after(jar, headers, i), n) == (match last_cookie_for(
            headers,
            n,
            i,
        ) {
            Option::Some(v) => Option::Some(v),
            Option::None => crate::assoc::spec_lookup(jar, n),
        }),
    decreases headers.len() - i,
{
    if i < headers.len() {
        let next = match cookie_parse_of(headers[i]) {
            Option::Some(p) => spec_set(jar, p.0, p.1),
            Option::None => jar,
        };
        lemma_jar_after_lookup(next, headers, i + 1, n);
        match cookie_parse_of(headers[i]) {
            Option::Some(p) => {
                crate::assoc::lemma_set_lookup(jar, p.0, p.1);
            },
            Option::None => {},
        }
    }
}

/// The single outgoing cookie header: the jar's `name=value` pairs from
/// index `i` on, in jar order, joined by `"; "`.
pub open spec fn spec_cookie_header(cs: Seq<(Seq<char>, Seq<char>)>, i: int) -> Seq<char>
    decreases cs.len() - i,
{
    if i < 0 || i >= cs.len() {
        Seq::empty()
    } else {
        let piece = cs[i].0 + "="@ + cs[i].1;
        if i + 1 < cs.len() {
            piece + "; "@ + spec_cookie_header(cs, i + 1)
        } else {
            piece
        }
    }
}

} // verus!
