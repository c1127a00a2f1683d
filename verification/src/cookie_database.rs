use vstd::prelude::*;
use crate::error::Error;
use crate::text::{chars_of, find_char, first_index, same_text};

verus! {

/// The name under which the operator's seed cookie is stored.
pub const SESSION_COOKIE_NAME: &'static str = "su_session";

/// The mathematical value of a stored cookie: its name and its value.
pub ghost struct CookieModel {
    pub name: Seq<char>,
    pub value: Seq<char>,
}

/// One stored session cookie and the origin it belongs to. The origin is written as
/// scheme, host and port (`https://example.org`), not as the address of a page: two
/// pages of one origin share one cookie only if the caller hands in the same text for
/// both.
#[derive(Debug, Clone, PartialEq, Eq)]
pub struct SessionCookie {
    pub origin: String,
    pub name: String,
    pub value: String,
}

/// The name and value that a cookie-setting header gives: the text before the first
/// `;` is the pair, the text before the first `=` of the pair is the name, and all that
/// follows that `=` in the pair is the value, further `=` included. A header whose pair
/// has no `=` gives nothing.
pub open spec fn cookie_pair(header: Seq<char>) -> Option<CookieModel> {
    let pair = header.take(first_index(header, ';'));
    let eq = first_index(pair, '=');
    if eq < pair.len() {
        Some(CookieModel { name: pair.take(eq), value: pair.skip(eq + 1) })
    } else {
        None
    }
}

/// The header text that sends a cookie back to its origin.
pub open spec fn header_text(cookie: CookieModel) -> Seq<char> {
    cookie.name + seq!['='] + cookie.value + seq![';']
}

/// The store after the cookie-setting headers of one response were written to it, first
/// to last: each header that gives a pair replaces what the store held for the origin.
pub open spec fn stored_after(
    jar: Map<Seq<char>, CookieModel>,
    origin: Seq<char>,
    headers: Seq<Seq<char>>,
) -> Map<Seq<char>, CookieModel>
    decreases headers.len(),
{
    if headers.len() == 0 {
        jar
    } else {
        let earlier = stored_after(jar, origin, headers.drop_last());
        match cookie_pair(headers.last()) {
            Some(cookie) => earlier.insert(origin, cookie),
            None => earlier,
        }
    }
}

/// The texts of a sequence of headers, in order.
pub open spec fn header_views(headers: Seq<String>) -> Seq<Seq<char>> {
    headers.map_values(|h: String| h@)
}

/// Reads the name and value that a cookie-setting header gives, if it gives a pair.
pub fn parse_cookie_pair(header: &str) -> (pair: Option<(String, String)>)
    ensures
        match cookie_pair(header@) {
            Some(cookie) => pair matches Some(p) && p.0@ == cookie.name && p.1@ == cookie.value,
            None => pair is None,
        },
{
    let chars = chars_of(header);
    let n: usize = chars.len();
    assert(chars@.subrange(0, n as int) =~= header@);
    let end = find_char(&chars, ';', 0, n);
    let ghost pair = header@.take(end as int);
    assert(chars@.subrange(0, end as int) =~= pair);
    let eq = find_char(&chars, '=', 0, end);
    if eq == end {
        return None;
    }
    let name = header.substring_char(0, eq).to_owned();
    let value = header.substring_char(eq + 1, end).to_owned();
    assert(name@ =~= pair.take(eq as int));
    assert(value@ =~= pair.skip(eq + 1));
    Some((name, value))
}

/// The value of a stored cookie.
pub open spec fn cookie_model(cookie: SessionCookie) -> CookieModel {
    CookieModel { name: cookie.name@, value: cookie.value@ }
}

/// The cookie at position `i` belongs to `origin`.
pub open spec fn held_at(cookies: Seq<SessionCookie>, origin: Seq<char>, i: int) -> bool {
    0 <= i < cookies.len() && cookies[i].origin@ == origin
}

/// No two cookies belong to the same origin.
pub open spec fn distinct_origins(cookies: Seq<SessionCookie>) -> bool {
    forall|i: int, j: int|
        0 <= i < cookies.len() && 0 <= j < cookies.len() && i != j ==> (#[trigger] cookies[i]).origin@
            != (#[trigger] cookies[j]).origin@
}

/// The cookies as a map from origin to cookie.
pub open spec fn jar_of(cookies: Seq<SessionCookie>) -> Map<Seq<char>, CookieModel> {
    Map::new(
        |origin: Seq<char>| exists|i: int| held_at(cookies, origin, i),
        |origin: Seq<char>| cookie_model(cookies[choose|i: int| held_at(cookies, origin, i)]),
    )
}

/// Where origins are distinct, the map gives for each cookie's origin that cookie.
proof fn lemma_jar_lookup(cookies: Seq<SessionCookie>, i: int)
    requires
        distinct_origins(cookies),
        0 <= i < cookies.len(),
    ensures
        jar_of(cookies).dom().contains(cookies[i].origin@),
        jar_of(cookies)[cookies[i].origin@] == cookie_model(cookies[i]),
{
    let origin = cookies[i].origin@;
    assert(held_at(cookies, origin, i));
    let j = choose|j: int| held_at(cookies, origin, j);
    assert(j == i);
}

/// The session store: for each origin at most one cookie, the one written last.
///
/// The store is keyed by the text of the origin as the caller gives it, and compares
/// keys character by character. Every key must therefore be an origin in one fixed
/// form (scheme, host and port); the store derives nothing from a page address.
pub struct CookieDatabase {
    cookies: Vec<SessionCookie>,
}

impl View for CookieDatabase {
    type V = Map<Seq<char>, CookieModel>;

    closed spec fn view(&self) -> Map<Seq<char>, CookieModel> {
        jar_of(self.cookies@)
    }
}

/// The position of the cookie that belongs to `origin`.
fn find_origin(cookies: &Vec<SessionCookie>, origin: &str) -> (at: Option<usize>)
    ensures
        match at {
            Some(i) => held_at(cookies@, origin@, i as int),
            None => forall|i: int| !held_at(cookies@, origin@, i),
        },
{
    let mut i: usize = 0;
    while i < cookies.len()
        invariant
            i <= cookies@.len(),
            forall|j: int| 0 <= j < i ==> !held_at(cookies@, origin@, j),
        decreases cookies@.len() - i,
    {
        if same_text(cookies[i].origin.as_str(), origin) {
            return Some(i);
        }
        i = i + 1;
    }
    None
}

impl CookieDatabase {
    #[verifier::type_invariant]
    spec fn keyed(&self) -> bool {
        distinct_origins(self.cookies@)
    }

    /// A store that holds no cookie.
    pub fn new() -> (store: Self)
        ensures
            store@ == Map::<Seq<char>, CookieModel>::empty(),
    {
        let store = CookieDatabase { cookies: Vec::new() };
        assert(store@ =~= Map::<Seq<char>, CookieModel>::empty());
        store
    }

    /// Writes a cookie for an origin. What the store held for that origin before is
    /// replaced; what it holds for other origins stays.
    pub fn add_cookie(&mut self, origin: &str, key: &str, value: &str) -> (done: Result<(), Error>)
        ensures
            done is Ok,
            final(self)@ == old(self)@.insert(origin@, CookieModel { name: key@, value: value@ }),
    {
        proof {
            use_type_invariant(&*self);
        }
        let ghost before = self.cookies@;
        let cookie = SessionCookie {
            origin: origin.to_owned(),
            name: key.to_owned(),
            value: value.to_owned(),
        };
        let at = find_origin(&self.cookies, origin);
        let mut cookies: Vec<SessionCookie> = Vec::new();
        core::mem::swap(&mut cookies, &mut self.cookies);
        match at {
            Some(i) => {
                cookies.set(i, cookie);
            },
            None => {
                cookies.push(cookie);
            },
        }
        proof {
            let after = cookies@;
            let at_index: int = match at {
                Some(i) => i as int,
                None => before.len() as int,
            };
            assert(after[at_index].origin@ == origin@);
            assert forall|a: int, b: int|
                0 <= a < after.len() && 0 <= b < after.len() && a != b implies (#[trigger] after[a]).origin@
                != (#[trigger] after[b]).origin@ by {
                if a != at_index && b != at_index {
                    assert(before[a].origin@ != before[b].origin@);
                } else {
                    let c = if a == at_index { b } else { a };
                    assert(after[c] == before[c]);
                    if at is Some {
                        assert(before[c].origin@ != before[at_index].origin@);
                    } else {
                        assert(!held_at(before, origin@, c));
                    }
                }
            }
            let target = jar_of(before).insert(origin@, CookieModel { name: key@, value: value@ });
            assert forall|k: Seq<char>| jar_of(after).dom().contains(k) <==> target.dom().contains(
                k,
            ) by {
                if jar_of(after).dom().contains(k) {
                    let j = choose|j: int| held_at(after, k, j);
                    if j != at_index {
                        assert(held_at(before, k, j));
                    }
                }
                if jar_of(before).dom().contains(k) {
                    let j = choose|j: int| held_at(before, k, j);
                    assert(held_at(after, k, j));
                }
                if k == origin@ {
                    assert(held_at(after, k, at_index));
                }
            }
            assert forall|k: Seq<char>| jar_of(after).dom().contains(k) implies jar_of(after)[k]
                == target[k] by {
                let j = choose|j: int| held_at(after, k, j);
                lemma_jar_lookup(after, j);
                if j != at_index {
                    assert(held_at(before, k, j));
                    lemma_jar_lookup(before, j);
                }
            }
            assert(jar_of(after) =~= target);
        }
        self.cookies = cookies;
        Ok(())
    }

    /// Stores the operator's seed value for an origin, under the session cookie's name.
    pub fn seed(&mut self, origin: &str, value: &str)
        ensures
            final(self)@ == old(self)@.insert(
                origin@,
                CookieModel { name: SESSION_COOKIE_NAME@, value: value@ },
            ),
    {
        let _ = self.add_cookie(origin, SESSION_COOKIE_NAME, value);
    }

    /// The cookie stored for an origin, if there is one.
    pub fn get_cookie(&self, origin: &str) -> (cookie: Option<SessionCookie>)
        ensures
            match cookie {
                Some(c) => self@.dom().contains(origin@) && c.origin@ == origin@ && cookie_model(c)
                    == self@[origin@],
                None => !self@.dom().contains(origin@),
            },
    {
        proof {
            use_type_invariant(self);
        }
        match find_origin(&self.cookies, origin) {
            Some(i) => {
                proof {
                    lemma_jar_lookup(self.cookies@, i as int);
                }
                Some(
                    SessionCookie {
                        origin: self.cookies[i].origin.clone(),
                        name: self.cookies[i].name.clone(),
                        value: self.cookies[i].value.clone(),
                    },
                )
            },
            None => None,
        }
    }

    /// The value of the cookie stored for an origin, or `NotFound` where the store
    /// holds none for it.
    pub fn get_cookie_value(&self, origin: &str) -> (value: Result<String, Error>)
        ensures
            match value {
                Ok(v) => self@.dom().contains(origin@) && v@ == self@[origin@].value,
                Err(e) => e == Error::NotFound && !self@.dom().contains(origin@),
            },
    {
        match self.get_cookie(origin) {
            Some(cookie) => Ok(cookie.value),
            None => Err(Error::NotFound),
        }
    }

    /// The `Cookie` header to send to an origin: the stored name and value as
    /// `name=value;`. Where the store holds no cookie for the origin there is no header.
    pub fn cookies(&self, origin: &str) -> (header: Option<String>)
        ensures
            match header {
                Some(h) => self@.dom().contains(origin@) && h@ == header_text(self@[origin@]),
                None => !self@.dom().contains(origin@),
            },
    {
        match self.get_cookie(origin) {
            Some(cookie) => {
                proof {
                    reveal_strlit("=");
                    reveal_strlit(";");
                }
                let mut header = cookie.name;
                header.append("=");
                header.append(cookie.value.as_str());
                header.append(";");
                assert(header@ =~= header_text(self@[origin@]));
                Some(header)
            },
            None => None,
        }
    }

    /// Writes the cookie-setting headers of one response to the store, first to last.
    /// Each header that gives a name and value replaces the cookie of the origin; a
    /// header that gives none is passed over. Without headers the store stays as it is.
    pub fn set_cookies(&mut self, cookie_headers: &Vec<String>, origin: &str)
        ensures
            final(self)@ == stored_after(old(self)@, origin@, header_views(cookie_headers@)),
    {
        let ghost before = self@;
        let ghost headers = header_views(cookie_headers@);
        let mut i: usize = 0;
        assert(headers.take(0) =~= Seq::<Seq<char>>::empty());
        while i < cookie_headers.len()
            invariant
                i <= cookie_headers@.len(),
                headers == header_views(cookie_headers@),
                self@ == stored_after(before, origin@, headers.take(i as int)),
            decreases cookie_headers@.len() - i,
        {
            proof {
                assert(headers.take(i + 1).drop_last() =~= headers.take(i as int));
                assert(headers.take(i + 1).last() == cookie_headers@[i as int]@);
            }
            match parse_cookie_pair(cookie_headers[i].as_str()) {
                Some(pair) => {
                    let _ = self.add_cookie(origin, pair.0.as_str(), pair.1.as_str());
                },
                None => {},
            }
            i = i + 1;
        }
        assert(headers.take(i as int) =~= headers);
    }
}

} // verus!
