//! Where the analysed files come from: a local path or a remote repository.
use vstd::prelude::*;
use vstd::string::*;
use crate::fmt::{dec, u64_str};
use crate::paths::{join_seq, join_strings, views};
use crate::strops::{char_class, contains_str, find_spec, trim, trim_chars, trim_end_by, trim_end_pat, trim_end_pat_spec, trim_spec, chars1};
use crate::text::{chars_of, str_eq};

verus! {

/// The source a command asks for: a local path, or a repository URL with an
/// optional ref.
#[derive(Debug, Clone, PartialEq, Eq, Default)]
pub struct SourceRequest {
    pub path: Option<String>,
    pub url: Option<String>,
    pub git_ref: Option<String>,
}

/// Where a resolved source lies on disk and how it is shown to the user.
#[derive(Debug, Clone, PartialEq, Eq)]
pub struct SourceLocation {
    pub analysis_path: String,
    pub repo_root: String,
    pub display_path: Option<String>,
    pub display_repo_root: Option<String>,
    /// The files were checked out from a remote repository.
    pub is_remote: bool,
}

/// How a hosting service writes the URL of a directory at a ref.
#[derive(Debug, Clone, Copy, PartialEq, Eq)]
pub enum TreeHostingStyle {
    GitHub,
    GitLab,
}

/// The parts of a parsed URL that source resolution reads.
#[derive(Debug, Clone, PartialEq, Eq)]
pub struct ParsedUrl {
    pub scheme: String,
    pub host: Option<String>,
    pub port: Option<u16>,
    /// The `/`-separated pieces of the path; `None` for a URL that cannot
    /// be a base.
    pub path_segments: Option<Vec<String>>,
    /// The whole URL as the parser writes it back.
    pub serialized: String,
}

/// The parts of a parsed URL as values.
pub struct UrlView {
    pub scheme: Seq<char>,
    pub host: Option<Seq<char>>,
    pub port: Option<u16>,
    pub path_segments: Option<Seq<Seq<char>>>,
    pub serialized: Seq<char>,
}

impl View for ParsedUrl {
    type V = UrlView;

    open spec fn view(&self) -> UrlView {
        UrlView {
            scheme: self.scheme@,
            host: match self.host { Some(h) => Some(h@), None => None },
            port: self.port,
            path_segments: match self.path_segments { Some(v) => Some(views(v@)), None => None },
            serialized: self.serialized@,
        }
    }
}

/// What the `url` crate's parser makes of a text: the parts of the URL, or
/// the text of its parse error.
pub uninterp spec fn url_parse(input: Seq<char>) -> Result<UrlView, Seq<char>>;

/// `url::Url::parse`, read through `scheme`, `host_str`, `port`,
/// `path_segments` and `as_str`; an error is given as its display text.
/// Nothing is claimed of the result but that it is `url_parse` of the input.
#[verifier::external_body]
fn parse_url(input: &str) -> (r: Result<ParsedUrl, String>)
    ensures
        url_parse(input@) == match r {
            Ok(u) => Ok::<UrlView, Seq<char>>(u@),
            Err(e) => Err::<UrlView, Seq<char>>(e@),
        },
{
    match url::Url::parse(input) {
        Ok(u) => Ok(ParsedUrl {
            scheme: u.scheme().to_owned(),
            host: u.host_str().map(|h| h.to_owned()),
            port: u.port(),
            path_segments: u.path_segments().map(|segments| segments.map(|x| x.to_owned()).collect()),
            serialized: u.as_str().to_owned(),
        }),
        Err(e) => Err(e.to_string()),
    }
}

/// A remote source as its URL describes it.
#[derive(Debug, Clone, PartialEq, Eq)]
pub enum ParsedRemoteSource {
    /// A whole repository.
    Repo { clone_url: String, display_repo_root: String },
    /// A directory at a ref: `tail_segments` holds the ref's segments
    /// followed by those of the directory, not yet told apart.
    Tree {
        clone_url: String,
        display_repo_root: String,
        style: TreeHostingStyle,
        tail_segments: Vec<String>,
    },
}

/// `s` is an SCP-style Git address such as `git@host:owner/repo.git`.
pub open spec fn is_scp_style(s: Seq<char>) -> bool {
    &&& find_spec(s, "@"@) != -1
    &&& find_spec(s, ":"@) != -1
    &&& find_spec(s, "://"@) == -1
    &&& find_spec(s, ":"@) > 0
    &&& find_spec(s, ":"@) + 1 < s.len()
}

/// Whether `raw_url` is an SCP-style Git address.
pub fn is_scp_style_git_url(raw_url: &str) -> (r: bool)
    ensures
        r == is_scp_style(raw_url@),
{
    proof {
        reveal_strlit("@");
        reveal_strlit(":");
        reveal_strlit("://");
    }
    if !contains_str(raw_url, "@") || !contains_str(raw_url, ":") || contains_str(raw_url, "://") {
        return false;
    }
    let v = chars_of(raw_url);
    let colon = chars_of(":");
    match crate::strops::find_chars(&v, &colon) {
        Some(k) => k > 0 && k < v.len() - 1,
        None => false,
    }
}

/// `s` without trailing `/` characters.
pub open spec fn without_trailing_slashes(s: Seq<char>) -> Seq<char> {
    trim_end_by(s, char_class(seq!['/']))
}

/// `raw_url` without trailing `/` characters.
pub fn strip_trailing_slash(raw_url: &str) -> (r: String)
    ensures
        r@ == without_trailing_slashes(raw_url@),
{
    trim_chars(raw_url, chars1('/'), false, true)
}

/// `s` without trailing `/` characters, then without trailing `.git`
/// suffixes.
pub open spec fn without_git_suffix(s: Seq<char>) -> Seq<char> {
    trim_end_pat_spec(without_trailing_slashes(s), ".git"@)
}

/// `raw_url` without trailing slashes and `.git` suffixes.
pub fn strip_trailing_git_suffix(raw_url: &str) -> (r: String)
    ensures
        r@ == without_git_suffix(raw_url@),
{
    let s = strip_trailing_slash(raw_url);
    trim_end_pat(s.as_str(), ".git")
}

/// The non-empty strings of `v`, in order.
pub open spec fn nonempty_strings(v: Seq<Seq<char>>) -> Seq<Seq<char>>
    decreases v.len(),
{
    if v.len() == 0 {
        Seq::empty()
    } else if v.last().len() == 0 {
        nonempty_strings(v.drop_last())
    } else {
        nonempty_strings(v.drop_last()).push(v.last())
    }
}

/// Index of the first `x` in `v`, or -1.
pub open spec fn first_index(v: Seq<Seq<char>>, x: Seq<char>) -> int
    decreases v.len(),
{
    if v.len() == 0 {
        -1
    } else if v[0] == x {
        0
    } else if first_index(v.drop_first(), x) == -1 {
        -1
    } else {
        first_index(v.drop_first(), x) + 1
    }
}

/// `scheme://host[:port]/` followed by the repository's segments.
pub open spec fn http_repo_root(u: UrlView, repo_segments: Seq<Seq<char>>) -> Seq<char> {
    u.scheme + "://"@ + (match u.host { Some(h) => h, None => Seq::empty() })
        + (match u.port { Some(p) => ":"@ + dec(p as nat), None => Seq::empty() })
        + "/"@ + join_seq(repo_segments, "/"@)
}

/// A remote source as values.
pub enum RemoteView {
    Repo { clone_url: Seq<char>, display_repo_root: Seq<char> },
    Tree { clone_url: Seq<char>, display_repo_root: Seq<char>, style: TreeHostingStyle, tail_segments: Seq<Seq<char>> },
}

impl View for ParsedRemoteSource {
    type V = RemoteView;

    open spec fn view(&self) -> RemoteView {
        match self {
            ParsedRemoteSource::Repo { clone_url, display_repo_root } =>
                RemoteView::Repo { clone_url: clone_url@, display_repo_root: display_repo_root@ },
            ParsedRemoteSource::Tree { clone_url, display_repo_root, style, tail_segments } =>
                RemoteView::Tree { clone_url: clone_url@, display_repo_root: display_repo_root@, style: *style, tail_segments: views(tail_segments@) },
        }
    }
}

/// What an HTTP(S) URL names: a repository, or a directory at a ref on
/// GitHub (`owner/repo/tree/...`) or GitLab (`group/.../repo/-/tree/...`);
/// links to single files are refused.
pub open spec fn http_source(u: UrlView) -> Result<RemoteView, Seq<char>> {
    let segs = match u.path_segments { Some(v) => nonempty_strings(v), None => Seq::empty() };
    let marker = first_index(segs, "-"@);
    if u.host is None {
        Err("URL must include a host"@)
    } else if segs.len() < 2 {
        Err("URL must include a repository path"@)
    } else if segs.len() > 2 && segs[2] == "blob"@ {
        Err("blob URLs are not supported"@)
    } else if marker != -1 && marker + 1 < segs.len() && segs[marker + 1] == "tree"@ {
        if marker < 2 {
            Err("GitLab tree URL must include a repository path"@)
        } else if marker + 2 >= segs.len() {
            Err("tree URL is missing the ref segment"@)
        } else {
            let root = http_repo_root(u, segs.take(marker));
            Ok(RemoteView::Tree { clone_url: root, display_repo_root: root, style: TreeHostingStyle::GitLab, tail_segments: segs.skip(marker + 2) })
        }
    } else if segs.len() > 2 && segs[2] == "tree"@ {
        if segs.len() < 4 {
            Err("tree URL is missing the ref segment"@)
        } else {
            let root = http_repo_root(u, segs.take(2));
            Ok(RemoteView::Tree { clone_url: root, display_repo_root: root, style: TreeHostingStyle::GitHub, tail_segments: segs.skip(3) })
        }
    } else if segs.contains("blob"@) {
        Err("blob URLs are not supported"@)
    } else {
        Ok(RemoteView::Repo { clone_url: without_trailing_slashes(u.serialized), display_repo_root: without_git_suffix(u.serialized) })
    }
}

/// What a source URL names.
pub open spec fn remote_source(raw: Seq<char>) -> Result<RemoteView, Seq<char>> {
    let t = trim_spec(raw);
    if t.len() == 0 {
        Err("URL must not be empty"@)
    } else if is_scp_style(t) {
        Ok(RemoteView::Repo { clone_url: t, display_repo_root: without_git_suffix(t) })
    } else {
        match url_parse(t) {
            Err(e) => Err("failed to parse URL `"@ + t + "`: "@ + e),
            Ok(u) => if u.scheme == "http"@ || u.scheme == "https"@ {
                http_source(u)
            } else if u.scheme == "ssh"@ || u.scheme == "file"@ {
                Ok(RemoteView::Repo { clone_url: without_trailing_slashes(t), display_repo_root: without_git_suffix(t) })
            } else {
                Err("unsupported URL scheme `"@ + u.scheme + "`"@)
            },
        }
    }
}

fn nonempty_segments(v: &Vec<String>) -> (r: Vec<String>)
    ensures
        views(r@) == nonempty_strings(views(v@)),
{
    let mut r: Vec<String> = Vec::new();
    let mut i: usize = 0;
    while i < v.len()
        invariant
            i <= v@.len(),
            views(r@) == nonempty_strings(views(v@).take(i as int)),
        decreases v@.len() - i,
    {
        assert(views(v@).take(i + 1).drop_last() =~= views(v@).take(i as int));
        if !v[i].as_str().is_empty() {
            let ghost before = views(r@);
            r.push(v[i].as_str().to_owned());
            assert(views(r@) =~= before.push(views(v@)[i as int]));
        }
        i = i + 1;
    }
    assert(views(v@).take(i as int) =~= views(v@));
    r
}

fn index_of(v: &Vec<String>, x: &str) -> (r: Option<usize>)
    ensures
        match r {
            Some(i) => i as int == first_index(views(v@), x@) && i < v@.len() && views(v@)[i as int] == x@,
            None => first_index(views(v@), x@) == -1,
        },
{
    let mut i: usize = 0;
    assert(views(v@).skip(0) =~= views(v@));
    while i < v.len()
        invariant
            i <= v@.len(),
            first_index(views(v@), x@) == (if first_index(views(v@).skip(i as int), x@) == -1 { -1 } else { first_index(views(v@).skip(i as int), x@) + i }),
        decreases v@.len() - i,
    {
        assert(views(v@).skip(i as int)[0] == views(v@)[i as int]);
        assert(views(v@).skip(i as int).drop_first() =~= views(v@).skip(i + 1));
        proof { lemma_first_index_range(views(v@).skip(i + 1), x@); }
        if str_eq(v[i].as_str(), x) {
            return Some(i);
        }
        i = i + 1;
    }
    assert(views(v@).skip(i as int) =~= Seq::<Seq<char>>::empty());
    None
}

fn segments_range(v: &Vec<String>, from: usize, to: usize) -> (r: Vec<String>)
    requires
        from <= to <= v@.len(),
    ensures
        views(r@) == views(v@).subrange(from as int, to as int),
{
    let mut r: Vec<String> = Vec::new();
    let mut i: usize = from;
    while i < to
        invariant
            from <= i <= to,
            to <= v@.len(),
            views(r@) == views(v@).subrange(from as int, i as int),
        decreases to - i,
    {
        let ghost before = views(r@);
        r.push(v[i].as_str().to_owned());
        assert(views(r@) =~= before.push(views(v@)[i as int]));
        assert(views(r@) =~= views(v@).subrange(from as int, i + 1));
        i = i + 1;
    }
    r
}

/// `scheme://host[:port]/` followed by the repository's segments.
fn build_http_repo_root(u: &ParsedUrl, host: &str, repo_segments: &Vec<String>) -> (r: String)
    requires
        u.host matches Some(h) && h@ == host@,
    ensures
        r@ == http_repo_root(u@, views(repo_segments@)),
{
    let mut r = u.scheme.as_str().to_owned();
    r.append("://");
    r.append(host);
    match u.port {
        Some(p) => {
            r.append(":");
            r.append(u64_str(p as u64).as_str());
        },
        None => {},
    }
    r.append("/");
    r.append(join_strings(repo_segments, "/").as_str());
    r
}

/// What an HTTP(S) URL names.
pub fn parse_http_remote_source(u: &ParsedUrl) -> (r: Result<ParsedRemoteSource, String>)
    ensures
        http_source(u@) == match r {
            Ok(p) => Ok::<RemoteView, Seq<char>>(p@),
            Err(e) => Err::<RemoteView, Seq<char>>(e@),
        },
{
    proof {
        reveal_strlit("-");
        reveal_strlit("tree");
        reveal_strlit("blob");
    }
    let host = match &u.host {
        Some(h) => h.as_str(),
        None => { return Err("URL must include a host".to_owned()); },
    };
    let segs = match &u.path_segments {
        Some(v) => nonempty_segments(v),
        None => Vec::new(),
    };
    assert(views(segs@) == match u@.path_segments { Some(v) => nonempty_strings(v), None => Seq::<Seq<char>>::empty() });
    let n = segs.len();
    if n < 2 {
        return Err("URL must include a repository path".to_owned());
    }
    if n > 2 && str_eq(segs[2].as_str(), "blob") {
        return Err("blob URLs are not supported".to_owned());
    }
    match index_of(&segs, "-") {
        Some(m) => {
            if m + 1 < n && str_eq(segs[m + 1].as_str(), "tree") {
                if m < 2 {
                    return Err("GitLab tree URL must include a repository path".to_owned());
                }
                if m + 2 >= n {
                    return Err("tree URL is missing the ref segment".to_owned());
                }
                let repo = segments_range(&segs, 0, m);
                let tail = segments_range(&segs, m + 2, n);
                assert(views(segs@).subrange(0, m as int) =~= views(segs@).take(m as int));
                assert(views(segs@).subrange(m + 2, n as int) =~= views(segs@).skip(m + 2));
                let root = build_http_repo_root(u, host, &repo);
                let display = root.as_str().to_owned();
                return Ok(ParsedRemoteSource::Tree { clone_url: root, display_repo_root: display, style: TreeHostingStyle::GitLab, tail_segments: tail });
            }
        },
        None => {},
    }
    if n > 2 && str_eq(segs[2].as_str(), "tree") {
        if n < 4 {
            return Err("tree URL is missing the ref segment".to_owned());
        }
        let repo = segments_range(&segs, 0, 2);
        let tail = segments_range(&segs, 3, n);
        assert(views(segs@).subrange(0, 2) =~= views(segs@).take(2));
        assert(views(segs@).subrange(3, n as int) =~= views(segs@).skip(3));
        let root = build_http_repo_root(u, host, &repo);
        let display = root.as_str().to_owned();
        return Ok(ParsedRemoteSource::Tree { clone_url: root, display_repo_root: display, style: TreeHostingStyle::GitHub, tail_segments: tail });
    }
    match index_of(&segs, "blob") {
        Some(k) => {
            assert(views(segs@)[k as int] == "blob"@);
            return Err("blob URLs are not supported".to_owned());
        },
        None => {
            proof {
                if views(segs@).contains("blob"@) {
                    let k = choose|k: int| 0 <= k < views(segs@).len() && views(segs@)[k] == "blob"@;
                    lemma_first_index_found(views(segs@), "blob"@, k);
                }
            }
        },
    }
    Ok(ParsedRemoteSource::Repo {
        clone_url: strip_trailing_slash(u.serialized.as_str()),
        display_repo_root: strip_trailing_git_suffix(u.serialized.as_str()),
    })
}

proof fn lemma_first_index_range(v: Seq<Seq<char>>, x: Seq<char>)
    ensures
        -1 <= first_index(v, x) < v.len(),
    decreases v.len(),
{
    if v.len() > 0 {
        lemma_first_index_range(v.drop_first(), x);
    }
}

proof fn lemma_first_index_found(v: Seq<Seq<char>>, x: Seq<char>, k: int)
    requires
        0 <= k < v.len(),
        v[k] == x,
    ensures
        first_index(v, x) >= 0,
    decreases v.len(),
{
    if v[0] != x {
        lemma_first_index_found(v.drop_first(), x, k - 1);
    }
}

/// What a source URL names.
pub fn parse_remote_source(raw_url: &str) -> (r: Result<ParsedRemoteSource, String>)
    ensures
        remote_source(raw_url@) == match r {
            Ok(p) => Ok::<RemoteView, Seq<char>>(p@),
            Err(e) => Err::<RemoteView, Seq<char>>(e@),
        },
{
    proof {
        reveal_strlit("http");
        reveal_strlit("https");
        reveal_strlit("ssh");
        reveal_strlit("file");
        reveal_strlit("URL must not be empty");
    }
    let t = trim(raw_url);
    if t.as_str().is_empty() {
        return Err("URL must not be empty".to_owned());
    }
    if is_scp_style_git_url(t.as_str()) {
        let display = strip_trailing_git_suffix(t.as_str());
        return Ok(ParsedRemoteSource::Repo { clone_url: t, display_repo_root: display });
    }
    match parse_url(t.as_str()) {
        Err(e) => {
            let mut m = "failed to parse URL `".to_owned();
            m.append(t.as_str());
            m.append("`: ");
            m.append(e.as_str());
            Err(m)
        },
        Ok(u) => {
            let s = u.scheme.as_str();
            if str_eq(s, "http") || str_eq(s, "https") {
                parse_http_remote_source(&u)
            } else if str_eq(s, "ssh") || str_eq(s, "file") {
                Ok(ParsedRemoteSource::Repo {
                    clone_url: strip_trailing_slash(t.as_str()),
                    display_repo_root: strip_trailing_git_suffix(t.as_str()),
                })
            } else {
                let mut m = "unsupported URL scheme `".to_owned();
                m.append(s);
                m.append("`");
                Err(m)
            }
        },
    }
}

/// How a source is to be obtained.
#[derive(Debug, Clone, PartialEq, Eq)]
pub enum SourcePlan {
    /// Files on disk at the path.
    Local(String),
    /// A repository to check out.
    Remote(ParsedRemoteSource),
}

/// Decides how the source a request asks for is obtained: a path and a URL
/// exclude each other, a ref needs a URL, and a tree URL names its own ref.
pub fn plan_source(request: &SourceRequest) -> (r: Result<SourcePlan, String>)
    ensures
        match (request.path, request.url) {
            (Some(_), Some(_)) => r matches Err(e) && e@ == "`path` and `url` are mutually exclusive"@,
            (None, None) => if request.git_ref is Some {
                r matches Err(e) && e@ == "`ref` requires `url`"@
            } else {
                r matches Ok(SourcePlan::Local(p)) && p@ == "."@
            },
            (Some(path), None) => if request.git_ref is Some {
                r matches Err(e) && e@ == "`ref` requires `url`"@
            } else {
                r matches Ok(SourcePlan::Local(p)) && p@ == path@
            },
            (None, Some(url)) => match remote_source(url@) {
                Err(m) => r matches Err(e) && e@ == m,
                Ok(v) => if v is Tree && request.git_ref is Some {
                    r matches Err(e) && e@ == "`ref` cannot be combined with a tree URL"@
                } else {
                    r matches Ok(SourcePlan::Remote(p)) && p@ == v
                },
            },
        },
{
    match (&request.path, &request.url) {
        (Some(_), Some(_)) => Err("`path` and `url` are mutually exclusive".to_owned()),
        (None, None) => if request.git_ref.is_some() {
            Err("`ref` requires `url`".to_owned())
        } else {
            Ok(SourcePlan::Local(".".to_owned()))
        },
        (Some(path), None) => if request.git_ref.is_some() {
            Err("`ref` requires `url`".to_owned())
        } else {
            Ok(SourcePlan::Local(path.as_str().to_owned()))
        },
        (None, Some(url)) => match parse_remote_source(url.as_str()) {
            Err(e) => Err(e),
            Ok(p) => {
                let is_tree = match &p {
                    ParsedRemoteSource::Tree { .. } => true,
                    ParsedRemoteSource::Repo { .. } => false,
                };
                if is_tree && request.git_ref.is_some() {
                    Err("`ref` cannot be combined with a tree URL".to_owned())
                } else {
                    Ok(SourcePlan::Remote(p))
                }
            },
        },
    }
}

/// Where a local source lies: the path is both the analysed directory and
/// the repository root, shown as it is.
pub fn local_location(path: String) -> (r: SourceLocation)
    ensures
        r.analysis_path == path,
        r.repo_root@ == path@,
        r.display_path is None,
        r.display_repo_root is None,
        !r.is_remote,
{
    let root = path.as_str().to_owned();
    SourceLocation { analysis_path: path, repo_root: root, display_path: None, display_repo_root: None, is_remote: false }
}

/// A ref to check out, trimmed; an empty one is refused.
pub fn checkout_ref(raw_ref: &str) -> (r: Result<String, String>)
    ensures
        trim_spec(raw_ref@).len() == 0 ==> (r matches Err(e) && e@ == "git ref must not be empty"@),
        trim_spec(raw_ref@).len() > 0 ==> (r matches Ok(t) && t@ == trim_spec(raw_ref@)),
{
    let t = trim(raw_ref);
    if t.as_str().is_empty() {
        Err("git ref must not be empty".to_owned())
    } else {
        Ok(t)
    }
}

/// The revisions to try, in order, for a ref: the ref itself, then the ref
/// of the `origin` remote, each as a commit (`<rev>^{commit}`).
pub fn commit_queries(trimmed_ref: &str) -> (r: Vec<String>)
    ensures
        views(r@) == seq![trimmed_ref@ + "^{commit}"@, "origin/"@ + trimmed_ref@ + "^{commit}"@],
{
    let mut a = trimmed_ref.to_owned();
    a.append("^{commit}");
    let mut b = "origin/".to_owned();
    b.append(trimmed_ref);
    b.append("^{commit}");
    let mut r: Vec<String> = Vec::new();
    r.push(a);
    r.push(b);
    assert(views(r@) =~= seq![trimmed_ref@ + "^{commit}"@, "origin/"@ + trimmed_ref@ + "^{commit}"@]);
    r
}

/// The ways to read the segments after `tree` as a ref and a directory,
/// longest ref first: the first `k` segments joined as the ref, and the rest,
/// if any, joined as the directory.
pub open spec fn tree_split(tail: Seq<Seq<char>>, k: int) -> (Seq<char>, Option<Seq<char>>) {
    (join_seq(tail.take(k), "/"@), if k == tail.len() { None } else { Some(join_seq(tail.skip(k), "/"@)) })
}

/// The candidate splits of a tree URL's segments into ref and directory,
/// longest ref first.
pub fn tree_ref_candidates(tail_segments: &Vec<String>) -> (r: Result<Vec<(String, Option<String>)>, String>)
    ensures
        tail_segments@.len() == 0 ==> (r matches Err(e) && e@ == "tree URL is missing the ref segment"@),
        tail_segments@.len() > 0 ==> (r matches Ok(c) && c@.len() == tail_segments@.len()
            && forall|i: int| 0 <= i < c@.len() ==> {
                let (rf, sub) = #[trigger] tree_split(views(tail_segments@), tail_segments@.len() - i);
                &&& c@[i].0@ == rf
                &&& match (c@[i].1, sub) {
                    (Some(a), Some(b)) => a@ == b,
                    (None, None) => true,
                    _ => false,
                }
            }),
{
    let n = tail_segments.len();
    if n == 0 {
        return Err("tree URL is missing the ref segment".to_owned());
    }
    let mut c: Vec<(String, Option<String>)> = Vec::new();
    let mut i: usize = 0;
    while i < n
        invariant
            n == tail_segments@.len(),
            i <= n,
            c@.len() == i,
            forall|j: int| 0 <= j < i ==> {
                let (rf, sub) = #[trigger] tree_split(views(tail_segments@), n - j);
                &&& c@[j].0@ == rf
                &&& match (c@[j].1, sub) {
                    (Some(a), Some(b)) => a@ == b,
                    (None, None) => true,
                    _ => false,
                }
            },
        decreases n - i,
    {
        let k = n - i;
        let head = segments_range(tail_segments, 0, k);
        assert(views(tail_segments@).subrange(0, k as int) =~= views(tail_segments@).take(k as int));
        let rf = join_strings(&head, "/");
        let sub = if k == n {
            None
        } else {
            let rest = segments_range(tail_segments, k, n);
            assert(views(tail_segments@).subrange(k as int, n as int) =~= views(tail_segments@).skip(k as int));
            Some(join_strings(&rest, "/"))
        };
        c.push((rf, sub));
        i = i + 1;
    }
    Ok(c)
}

/// The error when no split of a tree URL's segments names a ref.
pub fn tree_ref_failure(tail_segments: &Vec<String>) -> (r: String)
    ensures
        r@ == "failed to resolve a git ref from tree URL segments `"@ + join_seq(views(tail_segments@), "/"@) + "`"@,
{
    let mut m = "failed to resolve a git ref from tree URL segments `".to_owned();
    m.append(join_strings(tail_segments, "/").as_str());
    m.append("`");
    m
}

/// The URL of a directory at a ref, as the hosting service writes it.
pub open spec fn tree_display_url(style: TreeHostingStyle, repo_root: Seq<char>, git_ref: Seq<char>, sub_path: Option<Seq<char>>) -> Seq<char> {
    let base = match style {
        TreeHostingStyle::GitHub => repo_root + "/tree/"@ + git_ref,
        TreeHostingStyle::GitLab => repo_root + "/-/tree/"@ + git_ref,
    };
    match sub_path {
        Some(p) => if p.len() > 0 { base + "/"@ + p } else { base },
        None => base,
    }
}

/// The URL of a directory at a ref, as the hosting service writes it.
pub fn render_tree_display_url(style: TreeHostingStyle, repo_root: &str, git_ref: &str, sub_path: Option<&str>) -> (r: String)
    ensures
        r@ == tree_display_url(style, repo_root@, git_ref@, match sub_path { Some(p) => Some(p@), None => None }),
{
    let mut r = repo_root.to_owned();
    match style {
        TreeHostingStyle::GitHub => r.append("/tree/"),
        TreeHostingStyle::GitLab => r.append("/-/tree/"),
    }
    r.append(git_ref);
    match sub_path {
        Some(p) => {
            if !p.is_empty() {
                r.append("/");
                r.append(p);
            }
        },
        None => {},
    }
    r
}

/// A repository's display root, with `@ref` when a ref was checked out.
pub fn repo_display_root(display_repo_root: &str, resolved_ref: Option<&str>) -> (r: String)
    ensures
        r@ == match resolved_ref {
            Some(rf) => display_repo_root@ + "@"@ + rf@,
            None => display_repo_root@,
        },
{
    let mut r = display_repo_root.to_owned();
    match resolved_ref {
        Some(rf) => {
            r.append("@");
            r.append(rf);
        },
        None => {},
    }
    r
}

} // verus!
