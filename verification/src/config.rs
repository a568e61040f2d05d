//! The immutable route table: routes, credentials, upstream base URI, its
//! load-time validation and the first-match routing rule.

use vstd::prelude::*;

use crate::text::str_eq;

verus! {

/// One configured route: the exact public path clients must request, the
/// username whose credential authorizes the upstream access, and the opaque
/// identifier of the upstream collection (a UUID rendered as a string).
pub struct Calendar {
    pub urlpath: String,
    pub upstream_user: String,
    pub collection_id: String,
}

impl Clone for Calendar {
    fn clone(&self) -> (r: Self)
        ensures
            r == *self,
    {
        Calendar {
            urlpath: self.urlpath.clone(),
            upstream_user: self.upstream_user.clone(),
            collection_id: self.collection_id.clone(),
        }
    }
}

/// The parts of the upstream base URI that the proxy reads: scheme,
/// authority, and the optional base path. An absolute URI's path is either
/// empty or begins with a slash.
pub struct BaseUri {
    pub scheme: String,
    pub authority: String,
    pub path: String,
}

/// Server-level settings: where to listen, and the upstream base URI.
/// The bind address is held as an IP literal string; only the surrounding
/// transport layer interprets it.
pub struct Server {
    pub bind_addr: String,
    pub bind_port: u16,
    pub upstream_base_url: BaseUri,
}

/// The process-wide configuration snapshot: immutable once constructed,
/// shared read-only by every request.
pub struct Config {
    pub server: Server,
    /// Username to pre-encoded Basic credential, in configured order.
    pub credentials: Vec<(String, String)>,
    /// Routes in configured order; first match wins.
    pub calendars: Vec<Calendar>,
}

/// Why a configuration was rejected at load time. Each failure is fatal:
/// the process must not begin serving.
#[derive(Debug)]
pub enum ConfigError {
    /// The configuration resource could not be read.
    Io(String),
    /// The configuration text is malformed.
    Parse(String),
    /// A route's `upstream_user` has no entry in the credential mapping;
    /// carries that route's `urlpath`.
    ReferentialIntegrity(String),
}

impl ConfigError {
    /// The human-readable description of the failure; a referential-integrity
    /// failure names the offending route's `urlpath`.
    pub fn message(&self) -> (r: String)
        ensures
            self is Io ==> r@ == "could not read configuration: "@ + self->Io_0@,
            self is Parse ==> r@ == "could not parse configuration: "@ + self->Parse_0@,
            self is ReferentialIntegrity ==> r@ == "Calendar with path "@
                + self->ReferentialIntegrity_0@
                + " references user for which no credentials were given"@,
    {
        match self {
            ConfigError::Io(m) => {
                let mut s = String::from_str("could not read configuration: ");
                s.append(m.as_str());
                s
            },
            ConfigError::Parse(m) => {
                let mut s = String::from_str("could not parse configuration: ");
                s.append(m.as_str());
                s
            },
            ConfigError::ReferentialIntegrity(urlpath) => {
                let mut s = String::from_str("Calendar with path ");
                s.append(urlpath.as_str());
                s.append(" references user for which no credentials were given");
                s
            },
        }
    }
}

/// The upstream path for a collection: the base path and the collection
/// identifier joined by exactly one slash, with the mandatory trailing slash.
pub open spec fn joined_path(base_path: Seq<char>, id: Seq<char>) -> Seq<char> {
    if base_path.len() > 0 && base_path.last() == '/' {
        base_path + id + seq!['/']
    } else {
        base_path + seq!['/'] + id + seq!['/']
    }
}

/// The full upstream request target: scheme, authority, and the joined path.
pub open spec fn collection_uri_spec(base: BaseUri, id: Seq<char>) -> Seq<char> {
    base.scheme@ + seq![':', '/', '/'] + base.authority@ + joined_path(base.path@, id)
}

impl Calendar {
    /// Builds the upstream request target for this route's collection:
    /// `{scheme}://{authority}{basePath}/{collectionId}/`, with single slash
    /// separators and the mandatory trailing slash.
    pub fn collection_uri(&self, base_url: &BaseUri) -> (r: String)
        ensures
            r@ == collection_uri_spec(*base_url, self.collection_id@),
    {
        let mut s = String::new();
        s.append(base_url.scheme.as_str());
        s.append("://");
        s.append(base_url.authority.as_str());
        let p = base_url.path.as_str();
        let plen = p.unicode_len();
        let ends_with_slash = plen > 0 && p.get_char(plen - 1) == '/';
        s.append(p);
        if !ends_with_slash {
            s.append("/");
        }
        s.append(self.collection_id.as_str());
        s.append("/");
        proof {
            reveal_strlit("://");
            reveal_strlit("/");
            assert("://"@ =~= seq![':', '/', '/']);
            assert("/"@ =~= seq!['/']);
            assert(s@ =~= collection_uri_spec(*base_url, self.collection_id@));
        }
        s
    }
}

/// The credential that the first entry for `user` maps to, if any.
pub open spec fn lookup_cred(creds: Seq<(String, String)>, user: Seq<char>) -> Option<Seq<char>>
    decreases creds.len(),
{
    if creds.len() == 0 {
        None
    } else if creds[0].0@ == user {
        Some(creds[0].1@)
    } else {
        lookup_cred(creds.drop_first(), user)
    }
}

/// The first route whose `urlpath` equals `path` byte for byte, if any.
pub open spec fn first_match(cals: Seq<Calendar>, path: Seq<char>) -> Option<Calendar>
    decreases cals.len(),
{
    if cals.len() == 0 {
        None
    } else if cals[0].urlpath@ == path {
        Some(cals[0])
    } else {
        first_match(cals.drop_first(), path)
    }
}

/// The load-time invariant: every route's `upstream_user` has a credential.
pub open spec fn all_users_known(c: Config) -> bool {
    forall|i: int|
        0 <= i < c.calendars@.len() ==> lookup_cred(
            c.credentials@,
            #[trigger] c.calendars@[i].upstream_user@,
        ) is Some
}

/// A credential lookup succeeds exactly when some entry carries the user.
pub proof fn lemma_lookup_cred_some(creds: Seq<(String, String)>, user: Seq<char>)
    ensures
        lookup_cred(creds, user) is Some <==> exists|i: int|
            0 <= i < creds.len() && #[trigger] creds[i].0@ == user,
    decreases creds.len(),
{
    if creds.len() == 0 {
    } else if creds[0].0@ == user {
        assert(creds[0].0@ == user);
    } else {
        lemma_lookup_cred_some(creds.drop_first(), user);
        if lookup_cred(creds, user) is Some {
            let j = choose|j: int|
                0 <= j < creds.drop_first().len() && #[trigger] creds.drop_first()[j].0@ == user;
            assert(creds[j + 1].0@ == user);
        }
        if exists|i: int| 0 <= i < creds.len() && #[trigger] creds[i].0@ == user {
            let i = choose|i: int| 0 <= i < creds.len() && #[trigger] creds[i].0@ == user;
            assert(i != 0);
            assert(creds.drop_first()[i - 1].0@ == user);
        }
    }
}

/// What the first-match rule returns: a match exists exactly when some route
/// carries the path, and the returned route is the earliest such route.
pub proof fn lemma_first_match_properties(cals: Seq<Calendar>, path: Seq<char>)
    ensures
        first_match(cals, path) is Some <==> exists|i: int|
            0 <= i < cals.len() && #[trigger] cals[i].urlpath@ == path,
        first_match(cals, path) is Some ==> exists|k: int|
            {
                &&& 0 <= k < cals.len()
                &&& #[trigger] cals[k] == first_match(cals, path)->0
                &&& cals[k].urlpath@ == path
                &&& forall|j: int| 0 <= j < k ==> #[trigger] cals[j].urlpath@ != path
            },
    decreases cals.len(),
{
    if cals.len() == 0 {
    } else if cals[0].urlpath@ == path {
        assert(cals[0].urlpath@ == path);
        assert(cals[0] == first_match(cals, path)->0);
    } else {
        lemma_first_match_properties(cals.drop_first(), path);
        let rest = cals.drop_first();
        if first_match(cals, path) is Some {
            let k = choose|k: int|
                {
                    &&& 0 <= k < rest.len()
                    &&& #[trigger] rest[k] == first_match(rest, path)->0
                    &&& rest[k].urlpath@ == path
                    &&& forall|j: int| 0 <= j < k ==> #[trigger] rest[j].urlpath@ != path
                };
            assert(cals[k + 1] == first_match(cals, path)->0);
            assert(forall|j: int| 0 <= j < k + 1 ==> #[trigger] cals[j].urlpath@ != path) by {
                assert(forall|j: int|
                    1 <= j < k + 1 ==> #[trigger] cals[j].urlpath@ == rest[j - 1].urlpath@);
            }
        }
        if exists|i: int| 0 <= i < cals.len() && #[trigger] cals[i].urlpath@ == path {
            let i = choose|i: int| 0 <= i < cals.len() && #[trigger] cals[i].urlpath@ == path;
            assert(i != 0);
            assert(rest[i - 1].urlpath@ == path);
        }
    }
}

/// Find the credential of `user`: the first entry that carries it.
fn find_cred(creds: &Vec<(String, String)>, user: &str) -> (r: Option<String>)
    ensures
        r is Some <==> lookup_cred(creds@, user@) is Some,
        r is Some ==> Some(r->0@) == lookup_cred(creds@, user@),
{
    let n = creds.len();
    let mut i: usize = 0;
    proof {
        assert(creds@.skip(0) =~= creds@);
    }
    while i < n
        invariant
            n == creds@.len(),
            i <= n,
            lookup_cred(creds@, user@) == lookup_cred(creds@.skip(i as int), user@),
        decreases n - i,
    {
        let entry = &creds[i];
        proof {
            assert(creds@.skip(i as int)[0] == creds@[i as int]);
        }
        if str_eq(entry.0.as_str(), user) {
            return Some(entry.1.clone());
        }
        proof {
            assert(creds@.skip(i as int).drop_first() =~= creds@.skip(i as int + 1));
        }
        i = i + 1;
    }
    proof {
        assert(creds@.skip(n as int) =~= Seq::<(String, String)>::empty());
    }
    None
}

impl Config {
    /// Checks the referential integrity of the route table: every route's
    /// `upstream_user` must have an entry in the credential mapping. On
    /// failure, the error carries the `urlpath` of the first offending route.
    pub fn validate(&self) -> (r: Result<(), ConfigError>)
        ensures
            r is Ok <==> all_users_known(*self),
            r is Err ==> exists|k: int|
                {
                    &&& 0 <= k < self.calendars@.len()
                    &&& lookup_cred(
                        self.credentials@,
                        #[trigger] self.calendars@[k].upstream_user@,
                    ) is None
                    &&& forall|j: int|
                        0 <= j < k ==> lookup_cred(
                            self.credentials@,
                            #[trigger] self.calendars@[j].upstream_user@,
                        ) is Some
                    &&& r->Err_0 is ReferentialIntegrity
                    &&& r->Err_0->ReferentialIntegrity_0@ == self.calendars@[k].urlpath@
                },
    {
        let n = self.calendars.len();
        let mut i: usize = 0;
        while i < n
            invariant
                n == self.calendars@.len(),
                i <= n,
                forall|j: int|
                    0 <= j < i ==> lookup_cred(
                        self.credentials@,
                        #[trigger] self.calendars@[j].upstream_user@,
                    ) is Some,
            decreases n - i,
        {
            let cal = &self.calendars[i];
            if find_cred(&self.credentials, cal.upstream_user.as_str()).is_none() {
                return Err(ConfigError::ReferentialIntegrity(cal.urlpath.clone()));
            }
            i = i + 1;
        }
        Ok(())
    }

    /// The first-match routing rule: scan the routes in configured order and
    /// return the first whose `urlpath` equals `path` byte for byte, paired
    /// with the credential of its `upstream_user`. Requires the load-time
    /// invariant, under which the credential lookup always succeeds.
    pub fn match_request(&self, path: &str) -> (r: Option<(Calendar, String)>)
        requires
            all_users_known(*self),
        ensures
            r is Some <==> first_match(self.calendars@, path@) is Some,
            r is Some ==> (r->0).0 == first_match(self.calendars@, path@)->0,
            r is Some ==> Some((r->0).1@) == lookup_cred(
                self.credentials@,
                first_match(self.calendars@, path@)->0.upstream_user@,
            ),
    {
        let n = self.calendars.len();
        let mut i: usize = 0;
        proof {
            assert(self.calendars@.skip(0) =~= self.calendars@);
        }
        while i < n
            invariant
                n == self.calendars@.len(),
                i <= n,
                all_users_known(*self),
                first_match(self.calendars@, path@) == first_match(
                    self.calendars@.skip(i as int),
                    path@,
                ),
            decreases n - i,
        {
            let cal = &self.calendars[i];
            proof {
                assert(self.calendars@.skip(i as int)[0] == self.calendars@[i as int]);
            }
            if str_eq(cal.urlpath.as_str(), path) {
                let found = cal.clone();
                match find_cred(&self.credentials, cal.upstream_user.as_str()) {
                    Some(cred) => {
                        return Some((found, cred));
                    },
                    None => {
                        proof {
                            assert(lookup_cred(
                                self.credentials@,
                                self.calendars@[i as int].upstream_user@,
                            ) is Some);
                            assert(false);
                        }
                        return None;
                    },
                }
            }
            proof {
                assert(self.calendars@.skip(i as int).drop_first() =~= self.calendars@.skip(
                    i as int + 1,
                ));
            }
            i = i + 1;
        }
        proof {
            assert(self.calendars@.skip(n as int) =~= Seq::<Calendar>::empty());
        }
        None
    }
}

/// Routing is a pure function of the configuration and the path: calls on
/// equal views return equal results, so repeated calls with the same path
/// against an unchanged configuration are identical.
pub proof fn lemma_match_deterministic(c: Config, path1: Seq<char>, path2: Seq<char>)
    requires
        path1 == path2,
    ensures
        first_match(c.calendars@, path1) == first_match(c.calendars@, path2),
        first_match(c.calendars@, path1) is Some ==> lookup_cred(
            c.credentials@,
            first_match(c.calendars@, path1)->0.upstream_user@,
        ) == lookup_cred(c.credentials@, first_match(c.calendars@, path2)->0.upstream_user@),
{
}

/// Every configured route is reachable: matching a route's own `urlpath`
/// returns a route (the earliest one configured with that path) together
/// with the credential of that route's `upstream_user`.
pub proof fn lemma_configured_route_matches(c: Config, i: int)
    requires
        all_users_known(c),
        0 <= i < c.calendars@.len(),
    ensures
        first_match(c.calendars@, c.calendars@[i].urlpath@) is Some,
        ({
            let m = first_match(c.calendars@, c.calendars@[i].urlpath@)->0;
            &&& m.urlpath@ == c.calendars@[i].urlpath@
            &&& lookup_cred(c.credentials@, m.upstream_user@) is Some
            &&& exists|e: int| 0 <= e < c.credentials@.len() && #[trigger] c.credentials@[e].0@
                == m.upstream_user@
            &&& exists|k: int|
                {
                    &&& 0 <= k <= i
                    &&& #[trigger] c.calendars@[k] == m
                    &&& forall|j: int|
                        0 <= j < k ==> #[trigger] c.calendars@[j].urlpath@ != c.calendars@[i].urlpath@
                }
        }),
{
    let path = c.calendars@[i].urlpath@;
    lemma_first_match_properties(c.calendars@, path);
    let m = first_match(c.calendars@, path)->0;
    let k = choose|k: int|
        {
            &&& 0 <= k < c.calendars@.len()
            &&& #[trigger] c.calendars@[k] == m
            &&& c.calendars@[k].urlpath@ == path
            &&& forall|j: int| 0 <= j < k ==> #[trigger] c.calendars@[j].urlpath@ != path
        };
    assert(k <= i);
    assert(lookup_cred(c.credentials@, c.calendars@[k].upstream_user@) is Some);
    lemma_lookup_cred_some(c.credentials@, m.upstream_user@);
}

} // verus!

