//! The app-catalog handler: each managed path names one installed
//! application, and the application list is kept as serialized entries per
//! disk path. Querying the catalog and running the installer are outside
//! work; the caller hands the queried entries in as plain values and
//! executes the actions this handler decides. The path-to-URL and
//! URL-to-path conversions, which route every entry, are verified here.

use vstd::prelude::*;
use vstd::string::StrSliceExecFns;
use vstd::string::StringExecFns;

use crate::config::assoc_map;
use crate::config::path_keys;
use crate::config::insert_path;
use crate::engine::contains_str;
use crate::engine::lemma_assoc_dom;
use crate::script::strict_sorted;
use crate::strutil::lex_lt;
use crate::strutil::lemma_lex_irrefl;
use crate::strutil::str_eq;
use crate::strutil::first_token;
use crate::strutil::after_token;
use crate::strutil::take_first_token;
use crate::manaprotocol::callee;
use crate::manaprotocol::callee::AffectAction;

verus! {

/// The app catalog as its serialized form carries it: a list of apps.
pub struct AppList {
    pub app: Vec<App>,
}

/// One catalog entry: the app's interface URL and the opaque serialized
/// fragments carried along with it.
pub struct App {
    /// The app's interface URL.
    pub interface: Option<String>,
    /// The entry's capability fragment, carried opaquely.
    pub capabilities: Option<String>,
    /// The entry's access-point fragment, carried opaquely.
    pub access_points: Option<String>,
}

/// The handler over one queried app catalog.
pub struct Handler {
    /// The serialized entry per disk path, strictly sorted by path.
    apps: Vec<(String, String)>,
}

/// The entry bound to `path`, if any.
pub open spec fn spec_app(apps: Seq<(String, String)>, path: Seq<char>) -> Option<Seq<char>>
    decreases apps.len(),
{
    if apps.len() == 0 {
        None
    } else if apps[0].0@ == path {
        Some(apps[0].1@)
    } else {
        spec_app(apps.drop_first(), path)
    }
}

/// Appending one entry leaves earlier bindings in force and binds the new
/// key only where nothing bound it before.
proof fn lemma_spec_app_push(s: Seq<(String, String)>, e: (String, String), p: Seq<char>)
    ensures
        spec_app(s.push(e), p) == (if spec_app(s, p) is Some {
            spec_app(s, p)
        } else if e.0@ == p {
            Some(e.1@)
        } else {
            None
        }),
    decreases s.len(),
{
    if s.len() == 0 {
        assert(s.push(e)[0] == e);
        assert(s.push(e).drop_first() =~= Seq::<(String, String)>::empty());
        assert(spec_app(Seq::<(String, String)>::empty(), p) is None);
        assert(spec_app(s, p) is None);
    } else {
        assert(s.push(e)[0] == s[0]);
        assert(s.push(e).drop_first() =~= s.drop_first().push(e));
        lemma_spec_app_push(s.drop_first(), e, p);
    }
}

/// On a sorted catalog, the first-match lookup is exactly the mapping the
/// entries stand for.
proof fn lemma_spec_app_assoc(s: Seq<(String, String)>, p: Seq<char>)
    requires
        strict_sorted(path_keys(s)),
    ensures
        spec_app(s, p) == (if assoc_map(s).dom().contains(p) {
            Some(assoc_map(s)[p])
        } else {
            Option::<Seq<char>>::None
        }),
    decreases s.len(),
{
    if s.len() == 0 {
    } else {
        let s0 = s.drop_last();
        let e = s.last();
        assert(path_keys(s0) =~= path_keys(s).drop_last());
        assert forall|a: int, b: int|
            0 <= a < b < path_keys(s0).len() implies lex_lt(
            #[trigger] path_keys(s0)[a],
            #[trigger] path_keys(s0)[b],
        ) by {
            assert(path_keys(s0)[a] == path_keys(s)[a]);
            assert(path_keys(s0)[b] == path_keys(s)[b]);
        }
        lemma_spec_app_assoc(s0, p);
        assert(s0.push(e) =~= s);
        lemma_spec_app_push(s0, e, p);
        lemma_assoc_dom(s0);
        if spec_app(s0, p) is Some {
            // The key is bound among the earlier entries, so it is distinct
            // from the strictly larger last key.
            assert(contains_str(path_keys(s0), p));
            let i = choose|i: int| 0 <= i < path_keys(s0).len() && path_keys(s0)[i] == p;
            assert(path_keys(s)[i] == p);
            assert(path_keys(s)[s.len() - 1] == e.0@);
            assert(lex_lt(p, e.0@));
            if p == e.0@ {
                lemma_lex_irrefl(p);
            }
            assert(p != e.0@);
        } else {
            assert(!assoc_map(s0).dom().contains(p));
        }
    }
}

impl Handler {
    /// The disk paths the catalog binds.
    pub closed spec fn keys_view(&self) -> Seq<Seq<char>> {
        path_keys(self.apps@)
    }

    /// The entry bound to one disk path.
    pub closed spec fn app_at(&self, path: Seq<char>) -> Option<Seq<char>> {
        spec_app(self.apps@, path)
    }

    /// Build the handler from the queried catalog entries: one serialized
    /// entry per disk path, where a later entry for the same path wins.
    /// The catalog query itself is outside work, so the entries arrive as
    /// plain values.
    pub fn new(apps: Vec<(String, String)>) -> (r: Handler)
        ensures
            strict_sorted(r.keys_view()),
            forall|p: Seq<char>|
                #[trigger] r.app_at(p) == (if assoc_map(apps@).dom().contains(p) {
                    Some(assoc_map(apps@)[p])
                } else {
                    Option::<Seq<char>>::None
                }),
    {
        let n = apps.len();
        let mut sorted: Vec<(String, String)> = Vec::new();
        let mut i: usize = 0;
        proof {
            assert(path_keys(sorted@) =~= Seq::<Seq<char>>::empty());
            assert(assoc_map(sorted@) =~= assoc_map(apps@.take(0)));
        }
        while i < n
            invariant
                n == apps@.len(),
                i <= n,
                strict_sorted(path_keys(sorted@)),
                assoc_map(sorted@) == assoc_map(apps@.take(i as int)),
            decreases n - i,
        {
            insert_path(&mut sorted, apps[i].0.clone(), apps[i].1.clone());
            proof {
                let tk1 = apps@.take(i as int + 1);
                assert(tk1.drop_last() =~= apps@.take(i as int));
                assert(tk1.last() == apps@[i as int]);
            }
            i = i + 1;
        }
        proof {
            assert(apps@.take(n as int) =~= apps@);
        }
        let r = Handler { apps: sorted };
        proof {
            assert forall|p: Seq<char>|
                #[trigger] r.app_at(p) == (if assoc_map(apps@).dom().contains(p) {
                    Some(assoc_map(apps@)[p])
                } else {
                    Option::<Seq<char>>::None
                }) by {
                lemma_spec_app_assoc(r.apps@, p);
            }
        }
        r
    }

    /// The serialized entry for `path`, if the catalog binds it.
    pub fn lookup_app(&self, path: &str) -> (r: Option<&String>)
        ensures
            match r {
                Some(v) => self.app_at(path@) == Some(v@),
                None => self.app_at(path@) is None,
            },
    {
        let n = self.apps.len();
        let mut i: usize = 0;
        proof {
            assert(self.apps@.skip(0) =~= self.apps@);
        }
        while i < n
            invariant
                n == self.apps@.len(),
                i <= n,
                spec_app(self.apps@, path@) == spec_app(self.apps@.skip(i as int), path@),
            decreases n - i,
        {
            proof {
                assert(self.apps@.skip(i as int)[0] == self.apps@[i as int]);
                assert(self.apps@.skip(i as int).drop_first() =~= self.apps@.skip(i as int + 1));
            }
            if str_eq(self.apps[i].0.as_str(), path) {
                return Some(&self.apps[i].1);
            }
            i = i + 1;
        }
        None
    }

    /// Whether the catalog binds `path`.
    pub fn detect_app(&self, path: &str) -> (r: bool)
        ensures
            r == (self.app_at(path@) is Some),
    {
        let found = self.lookup_app(path);
        match found {
            Some(_) => true,
            None => false,
        }
    }
}

/// The app URL a managed path stands for: the path's first segment is the
/// URL scheme, its second the host, and the rest the URL's path.
pub open spec fn spec_app_url(path: Seq<char>) -> Seq<char> {
    let rest = after_token(path, '/');
    let host = first_token(rest, '/');
    let rel = if rest.contains('/') {
        after_token(rest, '/')
    } else {
        Seq::<char>::empty()
    };
    first_token(path, '/') + "://"@ + host + seq!['/'] + rel
}

/// Split a managed path into the URL parts it encodes: scheme, host, and
/// relative path. A path without a slash holds no scheme and host and is
/// rejected.
pub fn split_app_path(path: &str) -> (r: Result<(String, String, String), String>)
    ensures
        match r {
            Ok(parts) => {
                &&& path@.contains('/')
                &&& parts.0@ == first_token(path@, '/')
                &&& parts.1@ == first_token(after_token(path@, '/'), '/')
                &&& parts.2@ == (if after_token(path@, '/').contains('/') {
                    after_token(after_token(path@, '/'), '/')
                } else {
                    Seq::<char>::empty()
                })
            },
            Err(_) => !path@.contains('/'),
        },
{
    let (scheme, rest) = take_first_token(path, '/');
    let rest = match rest {
        Some(rest) => rest,
        None => {
            return Err(String::from_str("missing scheme or host in path"));
        },
    };
    let (host, rel) = take_first_token(rest, '/');
    let rel_s = match rel {
        Some(rel) => String::from_str(rel),
        None => String::new(),
    };
    Ok((String::from_str(scheme), String::from_str(host), rel_s))
}

/// The URL string for a managed path, built from its parts.
pub fn url_of_app_path(path: &str) -> (r: Result<String, String>)
    ensures
        match r {
            Ok(url) => path@.contains('/') && url@ == spec_app_url(path@),
            Err(_) => !path@.contains('/'),
        },
{
    let parts = split_app_path(path)?;
    let (scheme, host, rel) = parts;
    let mut url = scheme;
    url.append("://");
    url.append(host.as_str());
    url.append("/");
    url.append(rel.as_str());
    proof {
        reveal_strlit("/");
        assert(url@ =~= spec_app_url(path@));
    }
    Ok(url)
}

/// The disk path for one catalog entry: the URL's scheme, host, and path
/// segments, joined with slashes.
pub open spec fn spec_segments_path(base: Seq<char>, segs: Seq<Seq<char>>) -> Seq<char>
    decreases segs.len(),
{
    if segs.len() == 0 {
        base
    } else {
        spec_segments_path(base + seq!['/'] + segs[0], segs.drop_first())
    }
}

/// Join a parsed URL's scheme, host, and path segments into the entry's
/// disk path: `scheme/host/segment/...`.
pub fn disk_path_of_url_parts(scheme: &str, host: &str, segments: &Vec<String>) -> (r: String)
    ensures
        r@ == spec_segments_path(scheme@ + seq!['/'] + host@, segments.deep_view()),
{
    let mut r = String::from_str(scheme);
    r.append("/");
    r.append(host);
    proof {
        reveal_strlit("/");
        assert(r@ =~= scheme@ + seq!['/'] + host@);
        assert(segments.deep_view().skip(0) =~= segments.deep_view());
    }
    let n = segments.len();
    let mut i: usize = 0;
    while i < n
        invariant
            n == segments@.len(),
            i <= n,
            spec_segments_path(scheme@ + seq!['/'] + host@, segments.deep_view())
                == spec_segments_path(r@, segments.deep_view().skip(i as int)),
        decreases n - i,
    {
        proof {
            reveal_strlit("/");
            let segs = segments.deep_view().skip(i as int);
            assert(segs[0] == segments.deep_view()[i as int]);
            assert(segments.deep_view()[i as int] == segments@[i as int]@);
            assert(segs.drop_first() =~= segments.deep_view().skip(i as int + 1));
        }
        let ghost old_r = r@;
        r.append("/");
        r.append(segments[i].as_str());
        proof {
            reveal_strlit("/");
            assert(r@ =~= old_r + seq!['/'] + segments.deep_view()[i as int]);
        }
        i = i + 1;
    }
    proof {
        assert(segments.deep_view().skip(n as int) =~= Seq::<Seq<char>>::empty());
    }
    r
}

/// Decide how one path's shadow state is pushed back onto the catalog: a
/// missing shadow file removes the app behind the path's URL, a present one
/// installs or updates it from the shadow content.
pub fn affect_action(path: &str, shadow_content: Option<&String>) -> (r: Result<
    AffectAction,
    String,
>)
    ensures
        match r {
            Ok(a) => path@.contains('/') && match a {
                AffectAction::RemoveApp { url } => shadow_content is None && url@ == spec_app_url(
                    path@,
                ),
                AffectAction::ImportApp { url } => shadow_content is Some && url@ == spec_app_url(
                    path@,
                ),
            },
            Err(_) => !path@.contains('/'),
        },
{
    let url = url_of_app_path(path)?;
    match shadow_content {
        None => Ok(AffectAction::RemoveApp { url }),
        Some(_) => Ok(AffectAction::ImportApp { url }),
    }
}

impl callee::Handler for Handler {
    /// An app exists exactly when the catalog binds its disk path.
    fn detect(&mut self, path: &str) -> (r: Result<bool, String>) {
        Ok(self.detect_app(path))
    }

    /// An app's shadow mirror is its serialized catalog entry.
    fn gather(&mut self, path: &str) -> (r: Result<String, String>) {
        let found = self.lookup_app(path);
        match found {
            Some(v) => Ok(v.clone()),
            None => Err(String::from_str("no catalog entry for path")),
        }
    }

    /// Push one path's shadow state back onto the catalog.
    fn affect(&mut self, path: &str, shadow_content: Option<&String>) -> (r: Result<
        AffectAction,
        String,
    >) {
        affect_action(path, shadow_content)
    }
}

} // verus!
