use vstd::prelude::*;
use crate::value::{JsonValue, SpecJson, spec_get, get_key, clone_value};
use crate::assoc::{unique_keys, lemma_set_unique};
use crate::params::{params_view, set_param};
use crate::session::{MWuser, parse_cookie, cookie_parse_of, jar_after, spec_cookie_header,
    header_views};

verus! {

/// The client: the API's URL, the site information fetched once at
/// start-up, and the session state (cookie jar and user identity) that
/// every request/response cycle may read and update.
pub struct Api {
    pub api_url: String,
    pub site_info: JsonValue,
    pub cookies: Vec<(String, String)>,
    pub user: MWuser,
}

/// The value under `["query"][k1][k2]` of the site information, `Null`
/// wherever the path is missing.
pub open spec fn spec_site_info_value(info: SpecJson, k1: Seq<char>, k2: Seq<char>) -> SpecJson {
    match spec_get(info, "query"@) {
        Option::Some(q) => match spec_get(q, k1) {
            Option::Some(v) => match spec_get(v, k2) {
                Option::Some(x) => x,
                Option::None => SpecJson::Null,
            },
            Option::None => SpecJson::Null,
        },
        Option::None => SpecJson::Null,
    }
}

/// The key under which a token of the given type is returned: `csrftoken`
/// for the default type, otherwise the type followed by `token`.
pub open spec fn spec_token_key(tt: Seq<char>) -> Seq<char> {
    if tt.len() == 0 {
        "csrftoken"@
    } else {
        tt + "token"@
    }
}

/// The token of the given type in a token-query response, when present as
/// a string under `["query"]["tokens"]`.
pub open spec fn spec_token_of(x: SpecJson, tt: Seq<char>) -> Option<SpecJson> {
    match spec_get(x, "query"@) {
        Option::Some(q) => match spec_get(q, "tokens"@) {
            Option::Some(t) => spec_get(t, spec_token_key(tt)),
            Option::None => Option::None,
        },
        Option::None => Option::None,
    }
}

/// The response key that carries a token of `token_type`.
pub fn token_key(token_type: &str) -> (k: String)
    ensures
        k@ == spec_token_key(token_type@),
{
    if token_type.is_empty() {
        "csrftoken".to_owned()
    } else {
        let mut k = token_type.to_owned();
        k.append("token");
        k
    }
}

/// The fields of a token request: a token query, narrowed to `token_type`
/// when one is named.
pub fn token_request_params(token_type: &str) -> (ps: Vec<(String, String)>)
    ensures
        token_type@.len() == 0 ==> params_view(ps@) == seq![
            ("action"@, "query"@),
            ("meta"@, "tokens"@),
        ],
        token_type@.len() > 0 ==> params_view(ps@) == seq![
            ("action"@, "query"@),
            ("meta"@, "tokens"@),
            ("type"@, token_type@),
        ],
{
    let mut ps: Vec<(String, String)> = Vec::new();
    ps.push(("action".to_owned(), "query".to_owned()));
    ps.push(("meta".to_owned(), "tokens".to_owned()));
    if !token_type.is_empty() {
        ps.push(("type".to_owned(), token_type.to_owned()));
        proof {
            assert(params_view(ps@) =~= seq![
                ("action"@, "query"@),
                ("meta"@, "tokens"@),
                ("type"@, token_type@),
            ]);
        }
    } else {
        proof {
            assert(params_view(ps@) =~= seq![("action"@, "query"@), ("meta"@, "tokens"@)]);
        }
    }
    ps
}

/// The fields of a login request.
pub fn login_request_params(lgname: &str, lgpassword: &str, lgtoken: &str) -> (ps: Vec<
    (String, String),
>)
    ensures
        params_view(ps@) == seq![
            ("action"@, "login"@),
            ("lgname"@, lgname@),
            ("lgpassword"@, lgpassword@),
            ("lgtoken"@, lgtoken@),
        ],
{
    let mut ps: Vec<(String, String)> = Vec::new();
    ps.push(("action".to_owned(), "login".to_owned()));
    ps.push(("lgname".to_owned(), lgname.to_owned()));
    ps.push(("lgpassword".to_owned(), lgpassword.to_owned()));
    ps.push(("lgtoken".to_owned(), lgtoken.to_owned()));
    proof {
        assert(params_view(ps@) =~= seq![
            ("action"@, "login"@),
            ("lgname"@, lgname@),
            ("lgpassword"@, lgpassword@),
            ("lgtoken"@, lgtoken@),
        ]);
    }
    ps
}

/// The token of `token_type` in a token-query response, or the fixed
/// message when the response does not hold one.
pub fn extract_token(x: &JsonValue, token_type: &str) -> (r: Result<String, String>)
    ensures
        match spec_token_of(x@, token_type@) {
            Option::Some(v) => match v {
                SpecJson::Text(t) => r is Ok && r->Ok_0@ == t,
                _ => r is Err && r->Err_0@ == "Could not get token"@,
            },
            Option::None => r is Err && r->Err_0@ == "Could not get token"@,
        },
{
    let qkey: String = "query".to_owned();
    let tkey: String = "tokens".to_owned();
    let key = token_key(token_type);
    let found: Option<String> = match get_key(x, &qkey) {
        Option::Some(q) => match get_key(q, &tkey) {
            Option::Some(t) => match get_key(t, &key) {
                Option::Some(v) => match v {
                    JsonValue::Text(s) => Option::Some(s.clone()),
                    _ => Option::None,
                },
                Option::None => Option::None,
            },
            Option::None => Option::None,
        },
        Option::None => Option::None,
    };
    match found {
        Option::Some(s) => Result::Ok(s),
        Option::None => Result::Err("Could not get token".to_owned()),
    }
}

impl Api {
    /// The cookie jar as name/value character pairs.
    pub open spec fn cookies_view(&self) -> Seq<(Seq<char>, Seq<char>)> {
        params_view(self.cookies@)
    }

    /// The jar never holds two cookies of one name.
    pub open spec fn wf(&self) -> bool {
        unique_keys(self.cookies_view())
    }

    /// A fresh client for the given endpoint: empty site information, an
    /// empty cookie jar, and a blank user.
    pub fn new(api_url: &str) -> (a: Api)
        ensures
            a.wf(),
            a.api_url@ == api_url@,
            a.site_info@ == SpecJson::Obj(Seq::<(Seq<char>, SpecJson)>::empty()),
            a.cookies@.len() == 0,
            !a.user.is_logged_in,
    {
        Api {
            api_url: api_url.to_owned(),
            site_info: JsonValue::Obj(Vec::new()),
            cookies: Vec::new(),
            user: MWuser::new(),
        }
    }

    /// The stored site information.
    pub fn get_site_info(&self) -> (r: &JsonValue)
        ensures
            r@ == self.site_info@,
    {
        &self.site_info
    }

    /// Stores the site information fetched by the caller.
    pub fn set_site_info(&mut self, info: JsonValue)
        ensures
            final(self).site_info == info,
            final(self).api_url == old(self).api_url,
            final(self).cookies == old(self).cookies,
            final(self).user == old(self).user,
    {
        self.site_info = info;
    }

    /// A copy of the site-information value under `["query"][k1][k2]`,
    /// `Null` wherever the path is missing.
    pub fn get_site_info_value(&self, k1: &str, k2: &str) -> (r: JsonValue)
        ensures
            r@ == spec_site_info_value(self.site_info@, k1@, k2@),
    {
        let qkey: String = "query".to_owned();
        let k1s: String = k1.to_owned();
        let k2s: String = k2.to_owned();
        match get_key(&self.site_info, &qkey) {
            Option::Some(q) => match get_key(q, &k1s) {
                Option::Some(v) => match get_key(v, &k2s) {
                    Option::Some(x) => clone_value(x),
                    Option::None => JsonValue::Null,
                },
                Option::None => JsonValue::Null,
            },
            Option::None => JsonValue::Null,
        }
    }

    /// The string under `["query"][k1][k2]` of the site information, or,
    /// when the path does not hold a string, a message naming the path.
    pub fn get_site_info_string(&self, k1: &str, k2: &str) -> (r: Result<String, String>)
        ensures
            match spec_site_info_value(self.site_info@, k1@, k2@) {
                SpecJson::Text(t) => r is Ok && r->Ok_0@ == t,
                _ => r is Err && r->Err_0@ == "No 'query."@ + k1@ + "."@ + k2@
                    + "' value in site info"@,
            },
    {
        let qkey: String = "query".to_owned();
        let k1s: String = k1.to_owned();
        let k2s: String = k2.to_owned();
        let found: Option<String> = match get_key(&self.site_info, &qkey) {
            Option::Some(q) => match get_key(q, &k1s) {
                Option::Some(v) => match get_key(v, &k2s) {
                    Option::Some(x) => match x {
                        JsonValue::Text(s) => Option::Some(s.clone()),
                        _ => Option::None,
                    },
                    Option::None => Option::None,
                },
                Option::None => Option::None,
            },
            Option::None => Option::None,
        };
        match found {
            Option::Some(s) => Result::Ok(s),
            Option::None => {
                let mut msg: String = "No 'query.".to_owned();
                msg.append(k1);
                msg.append(".");
                msg.append(k2);
                msg.append("' value in site info");
                Result::Err(msg)
            },
        }
    }

    /// Applies every set-cookie directive of a response to the jar, in
    /// header order: a directive that parses inserts or overwrites the
    /// cookie of that name (last write wins within one response); one that
    /// does not parse leaves the jar as it is.
    #[verifier::loop_isolation(false)]
    pub fn set_cookies_from_response(&mut self, set_cookie_headers: &Vec<String>)
        ensures
            final(self).cookies_view() == jar_after(
                old(self).cookies_view(),
                header_views(set_cookie_headers@),
                0,
            ),
            old(self).wf() ==> final(self).wf(),
            final(self).site_info == old(self).site_info,
            final(self).api_url == old(self).api_url,
            final(self).user == old(self).user,
    {
        let ghost hv = header_views(set_cookie_headers@);
        let ghost jar0 = self.cookies_view();
        let mut i: usize = 0;
        while i < set_cookie_headers.len()
            invariant
                i <= hv.len(),
                hv.len() == set_cookie_headers@.len(),
                jar_after(jar0, hv, 0) == jar_after(self.cookies_view(), hv, i as int),
                old(self).wf() ==> self.wf(),
                self.site_info == old(self).site_info,
                self.api_url == old(self).api_url,
                self.user == old(self).user,
            decreases hv.len() - i,
        {
            let ghost before = self.cookies_view();
            match parse_cookie(&set_cookie_headers[i]) {
                Option::Some(p) => {
                    let ghost pk = p.0@;
                    let ghost pv = p.1@;
                    set_param(&mut self.cookies, p.0, p.1);
                    proof {
                        if old(self).wf() {
                            lemma_set_unique(before, pk, pv);
                        }
                    }
                },
                Option::None => {},
            }
            proof {
                assert(hv[i as int] == set_cookie_headers@[i as int]@);
                assert(jar_after(before, hv, i as int) == jar_after(
                    self.cookies_view(),
                    hv,
                    i + 1,
                ));
            }
            i = i + 1;
        }
    }

    /// The single outgoing cookie header: every cookie of the jar as
    /// `name=value`, in jar order, joined by `"; "`.
    #[verifier::loop_isolation(false)]
    pub fn cookies_to_string(&self) -> (r: String)
        ensures
            r@ == spec_cookie_header(self.cookies_view(), 0),
    {
        let ghost cv = self.cookies_view();
        let mut out = String::new();
        let mut i: usize = 0;
        while i < self.cookies.len()
            invariant
                i <= cv.len(),
                cv.len() == self.cookies@.len(),
                i == 0 ==> out@ == Seq::<char>::empty(),
                0 < i < cv.len() ==> spec_cookie_header(cv, 0) == out@ + ("; "@
                    + spec_cookie_header(cv, i as int)),
                i == cv.len() && cv.len() > 0 ==> spec_cookie_header(cv, 0) == out@,
            decreases cv.len() - i,
        {
            let ghost out0 = out@;
            if i > 0 {
                out.append("; ");
            }
            out.append(self.cookies[i].0.as_str());
            out.append("=");
            out.append(self.cookies[i].1.as_str());
            proof {
                let piece = cv[i as int].0 + "="@ + cv[i as int].1;
                assert(cv[i as int] == (self.cookies@[i as int].0@, self.cookies@[i as int].1@));
                if i == 0 {
                    assert(out@ =~= piece);
                    if cv.len() > 1 {
                        assert(spec_cookie_header(cv, 0) =~= out@ + ("; "@ + spec_cookie_header(
                            cv,
                            1,
                        )));
                    }
                } else {
                    assert(out@ =~= out0 + ("; "@ + piece));
                    if i + 1 < cv.len() {
                        assert(spec_cookie_header(cv, i as int) == piece + "; "@
                            + spec_cookie_header(cv, i + 1));
                        assert(spec_cookie_header(cv, 0) =~= out@ + ("; "@ + spec_cookie_header(
                            cv,
                            i + 1,
                        )));
                    } else {
                        assert(spec_cookie_header(cv, i as int) == piece);
                        assert(spec_cookie_header(cv, 0) =~= out@);
                    }
                }
            }
            i = i + 1;
        }
        out
    }
}

} // verus!
