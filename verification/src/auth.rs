//! Relay authentication: which key checks the token of a connection, and
//! what a connection without a token may do.
use vstd::prelude::*;

use url::Url;

use crate::text::{
    compare_paths, is_split, join, join_strings, lemma_split_unique, owned, split_char, split_once, strings,
    strip_prefix, strip_suffix, PathOrder,
};
use crate::token::{Key, KeyOperation, Payload};

verus! {

#[verifier::external_type_specification]
#[verifier::external_body]
pub struct ExUrl(Url);

/// The path of a URL, percent-encoded, as `Url::path` gives it.
pub uninterp spec fn url_path_of(url: Url) -> Seq<char>;

/// `Url::path`: the path of the URL, percent-encoded; it depends on the URL
/// alone, and is named `url_path_of`.
#[verifier::external_body]
fn url_path(url: &Url) -> (r: &str)
    ensures
        r@ == url_path_of(*url),
{
    url.path()
}

/// The authentication configuration.
#[derive(Debug, Default)]
pub struct AuthConfig {
    /// The file of the root key to use for all connections. Without it,
    /// authentication is disabled.
    pub key: Option<String>,
    /// Paths, each with the file of the key for tokens under it; an empty
    /// file name means the path needs no token.
    pub path: Vec<(String, String)>,
}

/// The outcome of reading a key file.
#[derive(Debug)]
pub struct KeyFile {
    /// The file's name.
    pub path: String,
    /// The key, or why it could not be read.
    pub key: Result<Key, String>,
}

/// Why authentication could not be set up, or refused a connection.
#[derive(Debug, PartialEq, Eq)]
pub enum AuthError {
    /// The key file was not read.
    KeyNotLoaded(String),
    /// The key file could not be read, for this reason.
    KeyFile(String),
    /// The key does not support verification.
    CannotVerify,
    /// The URL has no path.
    MissingPath,
    /// The URL carries a token but authentication is disabled.
    RootKeyRequired,
    /// Authentication is enabled but the URL carries no token.
    NoToken,
}

/// An error, as the specifications name it.
pub enum AuthFail {
    KeyNotLoaded(Seq<char>),
    KeyFile(Seq<char>),
    CannotVerify,
    MissingPath,
    RootKeyRequired,
    NoToken,
}

impl View for AuthError {
    type V = AuthFail;

    open spec fn view(&self) -> AuthFail {
        match self {
            AuthError::KeyNotLoaded(p) => AuthFail::KeyNotLoaded(p@),
            AuthError::KeyFile(m) => AuthFail::KeyFile(m@),
            AuthError::CannotVerify => AuthFail::CannotVerify,
            AuthError::MissingPath => AuthFail::MissingPath,
            AuthError::RootKeyRequired => AuthFail::RootKeyRequired,
            AuthError::NoToken => AuthFail::NoToken,
        }
    }
}

/// The first key file with this name.
pub open spec fn find_file(files: Seq<KeyFile>, name: Seq<char>) -> Option<int>
    decreases files.len(),
{
    if files.len() == 0 {
        None
    } else {
        match find_file(files.drop_last(), name) {
            Some(i) => Some(i),
            None => if files.last().path@ == name {
                Some(files.len() - 1)
            } else {
                None
            },
        }
    }
}

/// The key file with this name, if it was read and its key can verify.
pub open spec fn check_file(files: Seq<KeyFile>, name: Seq<char>) -> Result<int, AuthFail> {
    match find_file(files, name) {
        None => Err(AuthFail::KeyNotLoaded(name)),
        Some(i) => match files[i].key {
            Err(msg) => Err(AuthFail::KeyFile(msg@)),
            Ok(k) => if k.operations@.contains(KeyOperation::Verify) {
                Ok(i)
            } else {
                Err(AuthFail::CannotVerify)
            },
        },
    }
}

/// The key of each configured path: none for an empty file name.
pub open spec fn check_paths(files: Seq<KeyFile>, entries: Seq<(String, String)>) -> Result<
    Seq<(Seq<char>, Option<int>)>,
    AuthFail,
>
    decreases entries.len(),
{
    if entries.len() == 0 {
        Ok(seq![])
    } else {
        match check_paths(files, entries.drop_last()) {
            Err(e) => Err(e),
            Ok(done) => {
                let (p, f) = entries.last();
                if f@.len() == 0 {
                    Ok(done.push((p@, None)))
                } else {
                    match check_file(files, f@) {
                        Err(e) => Err(e),
                        Ok(i) => Ok(done.push((p@, Some(i)))),
                    }
                }
            },
        }
    }
}

/// The root key's file: none when not configured or empty.
pub open spec fn root_file(config: AuthConfig) -> Option<Seq<char>> {
    match config.key {
        Some(k) => if k@.len() == 0 {
            None
        } else {
            Some(k@)
        },
        None => None,
    }
}

/// The root key's file, checked.
pub open spec fn root_setup(config: AuthConfig, files: Seq<KeyFile>) -> Result<Option<int>, AuthFail> {
    match root_file(config) {
        None => Ok(None),
        Some(f) => match check_file(files, f) {
            Err(e) => Err(e),
            Ok(i) => Ok(Some(i)),
        },
    }
}

/// The paths as the specifications see them.
pub open spec fn path_entries(v: Seq<(String, Option<usize>)>) -> Seq<(Seq<char>, Option<int>)> {
    Seq::new(
        v.len(),
        |i: int|
            (
                v[i].0@,
                match v[i].1 {
                    Some(k) => Some(k as int),
                    None => None,
                },
            ),
    )
}

/// The outcome of setting up authentication: the root key's file, then the
/// key of each path, all checked in order. Without a root key,
/// authentication is disabled altogether and the paths are ignored.
pub open spec fn auth_setup(config: AuthConfig, files: Seq<KeyFile>) -> Result<
    (Option<int>, Seq<(Seq<char>, Option<int>)>),
    AuthFail,
> {
    match root_setup(config, files) {
        Err(e) => Err(e),
        Ok(None) => Ok((None, seq![])),
        Ok(Some(r)) => match check_paths(files, config.path@) {
            Err(e) => Err(e),
            Ok(ps) => Ok((Some(r), ps)),
        },
    }
}

proof fn lemma_find_file_prefix(files: Seq<KeyFile>, name: Seq<char>, k: int)
    requires
        0 <= k <= files.len(),
        find_file(files.take(k), name) is Some,
    ensures
        find_file(files, name) == find_file(files.take(k), name),
    decreases files.len() - k,
{
    if k < files.len() {
        assert(files.take(k + 1).drop_last() =~= files.take(k));
        lemma_find_file_prefix(files, name, k + 1);
    } else {
        assert(files.take(k) =~= files);
    }
}

impl AuthConfig {
    /// Set up authentication from this configuration and the key files it names.
    pub fn init(self, files: Vec<KeyFile>) -> (r: Result<Auth, AuthError>)
        ensures
            match auth_setup(self, files@) {
                Ok((root, paths)) => (r matches Ok(a) && a.wf() && a.root() == root && a.paths() == paths && a.files()
                    == files@),
                Err(e) => (r matches Err(err) && err@ == e),
            },
    {
        Auth::new(self, files)
    }
}

/// Parse one `KEY=VALUE` pair from the command line; an empty string is no pair.
pub fn parse_key_val(s: &str) -> (r: Result<Vec<(String, String)>, String>)
    ensures
        s@.len() == 0 ==> (r matches Ok(v) && v@.len() == 0),
        s@.len() > 0 && !s@.contains('=') ==> (r matches Err(m) && m@ == "invalid KEY=VALUE: no `=` in `"@ + s@ + "`"@),
        s@.len() > 0 && s@.contains('=') ==> (r matches Ok(v) && v@.len() == 1 && s@ == v@[0].0@ + seq!['='] + v@[0].1@
            && !v@[0].0@.contains('=')),
{
    let mut map: Vec<(String, String)> = Vec::new();
    if s.is_empty() {
        return Ok(map);
    }
    match split_once(s, '=') {
        None => {
            let mut msg = owned("invalid KEY=VALUE: no `=` in `");
            msg.append(s);
            msg.append("`");
            Err(msg)
        },
        Some((k, v)) => {
            map.push((owned(k), owned(v)));
            Ok(map)
        },
    }
}

/// How a connection is let in.
#[derive(Debug)]
pub enum Access<'a> {
    /// The token must be verified with this key; its path is then prefixed with `path`.
    Verify { key: &'a Key, token: String, path: String },
    /// No token is needed: the connection may do this.
    Open(Payload),
}

/// Authentication of incoming connections.
#[derive(Debug)]
pub struct Auth {
    files: Vec<KeyFile>,
    root: Option<usize>,
    paths: Vec<(String, Option<usize>)>,
}

/// The key configured for a path: the first entry for it, else the root key.
pub open spec fn key_for(paths: Seq<(Seq<char>, Option<int>)>, root: Option<int>, path: Seq<char>) -> Option<int>
    decreases paths.len(),
{
    if paths.len() == 0 {
        root
    } else if paths[0].0 == path {
        paths[0].1
    } else {
        key_for(paths.drop_first(), root, path)
    }
}

/// What a URL's path segments let a connection do: `Ok(Some((key, token, path)))`
/// when a token must be verified, `Ok(None)` when no token is needed.
pub open spec fn access_for(
    root: Option<int>,
    paths: Seq<(Seq<char>, Option<int>)>,
    segments: Seq<Seq<char>>,
) -> Result<Option<(int, Seq<char>, Seq<char>)>, AuthFail> {
    let last = segments.last();
    let jwt = ".jwt"@;
    if jwt.is_suffix_of(last) {
        let token = last.subrange(0, last.len() - jwt.len());
        let path = join(segments.drop_last(), "/"@);
        if root is None {
            Err(AuthFail::RootKeyRequired)
        } else {
            match key_for(paths, root, path) {
                Some(k) => Ok(Some((k, token, path))),
                None => Ok(None),
            }
        }
    } else if root is Some {
        Err(AuthFail::NoToken)
    } else {
        Ok(None)
    }
}

impl Auth {
    /// The key files.
    pub closed spec fn files(&self) -> Seq<KeyFile> {
        self.files@
    }

    /// The key file of the root key.
    pub closed spec fn root(&self) -> Option<int> {
        match self.root {
            Some(i) => Some(i as int),
            None => None,
        }
    }

    /// The configured paths with the key file of each.
    pub closed spec fn paths(&self) -> Seq<(Seq<char>, Option<int>)> {
        path_entries(self.paths@)
    }

    /// Every key referred to was read and can verify.
    pub open spec fn wf(&self) -> bool {
        &&& (self.root() matches Some(i) ==> usable(self.files(), i))
        &&& forall|j: int|
            0 <= j < self.paths().len() ==> ((#[trigger] self.paths()[j]).1 matches Some(i) ==> usable(self.files(), i))
    }

    /// Set up authentication from the configuration and the key files it names.
    pub fn new(config: AuthConfig, files: Vec<KeyFile>) -> (r: Result<Auth, AuthError>)
        ensures
            match auth_setup(config, files@) {
                Ok((root, paths)) => (r matches Ok(a) && a.wf() && a.root() == root && a.paths() == paths && a.files()
                    == files@),
                Err(e) => (r matches Err(err) && err@ == e),
            },
    {
        let root: Option<usize> = match &config.key {
            Some(k) => if k.as_str().is_empty() {
                assert(root_file(config) is None);
                None
            } else {
                assert(root_file(config) == Some(k@));
                match Self::check_file(&files, k.as_str()) {
                    Err(e) => return Err(e),
                    Ok(i) => {
                        assert(check_file(files@, k@) == Ok::<int, AuthFail>(i as int));
                        Some(i)
                    },
                }
            },
            None => None,
        };
        if root.is_none() {
            let r = Auth { files, root: None, paths: Vec::new() };
            assert(r.paths() =~= Seq::<(Seq<char>, Option<int>)>::empty());
            return Ok(r);
        }
        let mut paths: Vec<(String, Option<usize>)> = Vec::new();
        let mut n: usize = 0;
        let ghost entries = config.path@;
        assert(entries.take(0) =~= Seq::<(String, String)>::empty());
        assert(path_entries(paths@) =~= Seq::<(Seq<char>, Option<int>)>::empty());
        while n < config.path.len()
            invariant
                entries == config.path@,
                n <= entries.len(),
                check_paths(files@, entries.take(n as int)) == Ok::<Seq<(Seq<char>, Option<int>)>, AuthFail>(
                    path_entries(paths@),
                ),
                root_setup(config, files@) == Ok::<Option<int>, AuthFail>(
                    match root {
                        Some(i) => Some(i as int),
                        None => None,
                    },
                ),
                root is Some,
                root matches Some(i) ==> usable(files@, i as int),
                forall|j: int| 0 <= j < paths@.len() ==> ((#[trigger] paths@[j]).1 matches Some(i) ==> usable(files@, i as int)),
            decreases entries.len() - n,
        {
            let ghost before = paths@;
            let entry = &config.path[n];
            let ghost e = entries[n as int];
            proof {
                assert(entries.take(n + 1).drop_last() =~= entries.take(n as int));
                assert(entries.take(n + 1).last() == e);
                assert(entry.1@ == e.1@ && entry.0@ == e.0@);
            }
            let file = if entry.1.as_str().is_empty() {
                None
            } else {
                match Self::check_file(&files, entry.1.as_str()) {
                    Err(e) => {
                        proof {
                            lemma_check_paths_err(files@, entries, n as int + 1);
                        }
                        return Err(e);
                    },
                    Ok(i) => {
                        proof {
                            assert(check_file(files@, e.1@) == Ok::<int, AuthFail>(i as int));
                        }
                        Some(i)
                    },
                }
            };
            let name = owned(entry.0.as_str());
            paths.push((name, file));
            proof {
                let fe: Option<int> = match file {
                    Some(k) => Some(k as int),
                    None => None,
                };
                assert(path_entries(paths@) =~= path_entries(before).push((e.0@, fe)));
                assert(check_paths(files@, entries.take(n + 1)) == Ok::<Seq<(Seq<char>, Option<int>)>, AuthFail>(
                    path_entries(before).push((e.0@, fe)),
                ));
                assert forall|j: int| 0 <= j < paths@.len() implies ((#[trigger] paths@[j]).1 matches Some(i)
                    ==> usable(files@, i as int)) by {
                    if j < before.len() {
                        assert(paths@[j] == before[j]);
                    }
                }
            }
            n = n + 1;
        }
        proof {
            assert(entries.take(n as int) =~= entries);
        }
        let r = Auth { files, root, paths };
        Ok(r)
    }

    /// Find the key file with this name and check that it can verify.
    fn check_file(files: &Vec<KeyFile>, name: &str) -> (r: Result<usize, AuthError>)
        ensures
            match check_file(files@, name@) {
                Ok(i) => (r matches Ok(j) && j == i && usable(files@, i)),
                Err(e) => (r matches Err(err) && err@ == e),
            },
    {
        let mut i: usize = 0;
        while i < files.len()
            invariant
                i <= files@.len(),
                find_file(files@.take(i as int), name@) is None,
            decreases files@.len() - i,
        {
            if compare_paths(files[i].path.as_str(), name) == PathOrder::Equal {
                proof {
                    assert(files@.take(i + 1).drop_last() =~= files@.take(i as int));
                    lemma_find_file_prefix(files@, name@, i + 1);
                }
                return match &files[i].key {
                    Err(msg) => Err(AuthError::KeyFile(owned(msg.as_str()))),
                    Ok(k) => if k.supports(KeyOperation::Verify) {
                        Ok(i)
                    } else {
                        Err(AuthError::CannotVerify)
                    },
                };
            }
            proof {
                assert(files@.take(i + 1).drop_last() =~= files@.take(i as int));
            }
            i = i + 1;
        }
        assert(files@.take(i as int) =~= files@);
        Err(AuthError::KeyNotLoaded(owned(name)))
    }

    /// The key file configured for a path, or the root key's.
    fn key_for(&self, path: &str) -> (r: Option<usize>)
        ensures
            r matches Some(i) ==> key_for(self.paths(), self.root(), path@) == Some(i as int),
            r is None ==> key_for(self.paths(), self.root(), path@) is None,
    {
        let mut i: usize = 0;
        assert(self.paths().skip(0) =~= self.paths());
        while i < self.paths.len()
            invariant
                i <= self.paths@.len(),
                key_for(self.paths(), self.root(), path@) == key_for(self.paths().skip(i as int), self.root(), path@),
            decreases self.paths@.len() - i,
        {
            if compare_paths(self.paths[i].0.as_str(), path) == PathOrder::Equal {
                return self.paths[i].1;
            }
            proof {
                assert(self.paths().skip(i as int).drop_first() =~= self.paths().skip(i + 1));
            }
            i = i + 1;
        }
        self.root
    }

    /// What these URL path segments let a connection do: the key to check
    /// its token with, or, with no token needed, claims that allow
    /// everything under its path.
    pub open spec fn answers<'a>(&self, segments: Seq<Seq<char>>, r: Result<Access<'a>, AuthError>) -> bool {
        match access_for(self.root(), self.paths(), segments) {
            Err(e) => (r matches Err(err) && err@ == e),
            Ok(Some((k, token, path))) => (r matches Ok(Access::Verify { key, token: t, path: p }) && self.files()[k].key
                == Ok::<Key, String>(*key) && t@ == token && p@ == path),
            Ok(None) => (r matches Ok(Access::Open(payload)) && payload.path@ == join(segments, "/"@) && (
            payload.publish matches Some(pp) && pp@.len() == 0) && (payload.subscribe matches Some(ss) && ss@.len()
                == 0) && payload.publish_force is None && payload.expires is None && payload.issued is None),
        }
    }

    /// Decide how a connection with these URL path segments is let in.
    pub fn validate_segments(&self, segments: &Vec<String>) -> (r: Result<Access<'_>, AuthError>)
        requires
            self.wf(),
            segments@.len() >= 1,
        ensures
            self.answers(strings(segments@), r),
    {
        let n = segments.len();
        let last = segments[n - 1].as_str();
        let ghost segs = strings(segments@);
        proof {
            assert(segs.last() == last@);
            assert(strings(segments@.take(n - 1)) =~= segs.drop_last());
        }
        match strip_suffix(last, ".jwt") {
            Some(token) => {
                proof {
                    reveal_strlit(".jwt");
                    assert(token@ =~= last@.subrange(0, last@.len() - 4));
                }
                let path = join_strings(segments, n - 1, "/");
                if self.root.is_none() {
                    return Err(AuthError::RootKeyRequired);
                }
                match self.key_for(path.as_str()) {
                    Some(i) => {
                        proof {
                            lemma_key_for_usable(self.files(), self.paths(), self.root(), path@);
                        }
                        let key = match &self.files[i].key {
                            Ok(k) => k,
                            Err(_) => {
                                proof {
                                    assert(false);
                                }
                                return Err(AuthError::RootKeyRequired);
                            },
                        };
                        return Ok(Access::Verify { key, token: owned(token), path });
                    },
                    None => {},
                }
            },
            None => {
                if self.root.is_some() {
                    return Err(AuthError::NoToken);
                }
            },
        }
        let mut payload = Payload::default();
        payload.path = join_strings(segments, n, "/");
        assert(segments@.take(n as int) =~= segments@);
        payload.publish = Some(String::new());
        payload.subscribe = Some(String::new());
        Ok(Access::Open(payload))
    }

    /// Decide how a connection to this URL is let in, by the URL's path.
    pub fn validate(&self, url: &Url) -> (r: Result<Access<'_>, AuthError>)
        requires
            self.wf(),
        ensures
            self.validates(url_path_of(*url), r),
    {
        self.validate_path(url_path(url))
    }

    /// How a connection to a URL with this path is let in: the path must
    /// start with `/`, and what follows is split at every `/`.
    pub open spec fn validates<'a>(&self, path: Seq<char>, r: Result<Access<'a>, AuthError>) -> bool {
        &&& !"/"@.is_prefix_of(path) ==> r == Err::<Access<'a>, AuthError>(AuthError::MissingPath)
        &&& "/"@.is_prefix_of(path) ==> forall|v: Seq<Seq<char>>| is_split(v, path.skip(1), '/') ==> #[trigger] self.answers(v, r)
    }

    /// Decide how a connection to a URL with this path is let in: the path
    /// must start with `/`, and what follows is split at every `/`.
    pub fn validate_path(&self, path: &str) -> (r: Result<Access<'_>, AuthError>)
        requires
            self.wf(),
        ensures
            self.validates(path@, r),
    {
        match path_segments(path) {
            None => Err(AuthError::MissingPath),
            Some(segments) => {
                let r = self.validate_segments(&segments);
                proof {
                    assert forall|v: Seq<Seq<char>>| is_split(v, path@.skip(1), '/') implies #[trigger] self.answers(
                        v,
                        r,
                    ) by {
                        lemma_split_unique(v, strings(segments@), path@.skip(1), '/');
                    }
                }
                r
            },
        }
    }

    /// The claims of a verified token, with the path it was presented under
    /// put in front of its own path.
    pub fn authorize(path: &str, claims: Payload) -> (r: Payload)
        ensures
            r.path@ == path@ + claims.path@,
            r.publish == claims.publish,
            r.publish_force == claims.publish_force,
            r.subscribe == claims.subscribe,
            r.expires == claims.expires,
            r.issued == claims.issued,
    {
        let mut claims = claims;
        let mut full = owned(path);
        full.append(claims.path.as_str());
        claims.path = full;
        claims
    }
}

proof fn lemma_key_for_usable(
    files: Seq<KeyFile>,
    paths: Seq<(Seq<char>, Option<int>)>,
    root: Option<int>,
    path: Seq<char>,
)
    requires
        root matches Some(i) ==> usable(files, i),
        forall|j: int| 0 <= j < paths.len() ==> ((#[trigger] paths[j]).1 matches Some(i) ==> usable(files, i)),
    ensures
        key_for(paths, root, path) matches Some(i) ==> usable(files, i),
    decreases paths.len(),
{
    if paths.len() > 0 && paths[0].0 != path {
        assert forall|j: int| 0 <= j < paths.drop_first().len() implies ((#[trigger] paths.drop_first()[j]).1 matches Some(
            i,
        ) ==> usable(files, i)) by {
            assert(paths.drop_first()[j] == paths[j + 1]);
        }
        lemma_key_for_usable(files, paths.drop_first(), root, path);
    }
}

/// The key chosen for a token's path is that of the first configured path
/// equal to it, character for character; a path equal to none of them, such
/// as one that only starts with a configured path, gets the root key.
pub proof fn lemma_key_for_exact(paths: Seq<(Seq<char>, Option<int>)>, root: Option<int>, path: Seq<char>)
    ensures
        (forall|i: int| 0 <= i < paths.len() ==> paths[i].0 != path) ==> key_for(paths, root, path) == root,
        forall|i: int|
            0 <= i < paths.len() && paths[i].0 == path && (forall|j: int| 0 <= j < i ==> paths[j].0 != path)
                ==> key_for(paths, root, path) == paths[i].1,
    decreases paths.len(),
{
    if paths.len() > 0 {
        let rest = paths.drop_first();
        lemma_key_for_exact(rest, root, path);
        if paths[0].0 != path {
            assert((forall|i: int| 0 <= i < paths.len() ==> paths[i].0 != path) ==> (forall|i: int|
                0 <= i < rest.len() ==> rest[i].0 != path)) by {
                if forall|i: int| 0 <= i < paths.len() ==> paths[i].0 != path {
                    assert forall|i: int| 0 <= i < rest.len() implies rest[i].0 != path by {
                        assert(rest[i] == paths[i + 1]);
                    }
                }
            }
            assert forall|i: int|
                0 <= i < paths.len() && paths[i].0 == path && (forall|j: int| 0 <= j < i ==> paths[j].0 != path)
                    implies key_for(paths, root, path) == paths[i].1 by {
                assert(i > 0);
                assert(rest[i - 1] == paths[i]);
                assert forall|j: int| 0 <= j < i - 1 implies rest[j].0 != path by {
                    assert(rest[j] == paths[j + 1]);
                }
            }
        }
    }
}

/// The key file was read and can verify.
pub open spec fn usable(files: Seq<KeyFile>, i: int) -> bool {
    &&& 0 <= i < files.len()
    &&& files[i].key matches Ok(k)
    &&& k.operations@.contains(KeyOperation::Verify)
}

pub proof fn lemma_check_paths_err(files: Seq<KeyFile>, entries: Seq<(String, String)>, k: int)
    requires
        0 <= k <= entries.len(),
        check_paths(files, entries.take(k)) is Err,
    ensures
        check_paths(files, entries) == check_paths(files, entries.take(k)),
    decreases entries.len() - k,
{
    if k < entries.len() {
        assert(entries.take(k + 1).drop_last() =~= entries.take(k));
        lemma_check_paths_err(files, entries, k + 1);
    } else {
        assert(entries.take(k) =~= entries);
    }
}

/// The segments of a URL path, as `Url::path_segments` gives them: the path
/// without its leading `/`, split at every `/`; none if it has no leading `/`.
pub fn path_segments(path: &str) -> (r: Option<Vec<String>>)
    ensures
        r is None <==> !"/"@.is_prefix_of(path@),
        r matches Some(v) ==> v@.len() >= 1 && "/"@ + join(strings(v@), "/"@) == path@ && forall|i: int|
            0 <= i < v@.len() ==> !(#[trigger] v@[i]@).contains('/'),
        r matches Some(v) ==> is_split(strings(v@), path@.skip(1), '/'),
{
    match strip_prefix(path, "/") {
        None => None,
        Some(rest) => {
            let v = split_char(rest, '/');
            proof {
                assert(seq!['/'] =~= "/"@) by {
                    reveal_strlit("/");
                }
                assert(rest@ =~= path@.skip(1));
            }
            Some(v)
        },
    }
}

} // verus!
