//! Selecting the files that a Git diff specification names.
use vstd::prelude::*;
use vstd::string::*;
use crate::strops::{trim, trim_spec};
use crate::text::{chars_of, decode_lossy, lossy_text, push_char, str_eq};
use crate::paths::{join_seq, join_strings, views};
use crate::strset::{as_set, set_extend, strictly_sorted};
use crate::context::types::ContextDiffSelection;

verus! {

/// The non-empty runs of `s` between occurrences of `sep`.
pub open spec fn fields_of<T>(s: Seq<T>, sep: T) -> Seq<Seq<T>>
    decreases s.len(),
{
    if s.len() == 0 {
        Seq::empty()
    } else {
        let prev = fields_of(s.drop_last(), sep);
        if s.last() == sep {
            prev
        } else if s.len() >= 2 && s[s.len() - 2] != sep {
            prev.update(prev.len() - 1, prev.last().push(s.last()))
        } else {
            prev.push(seq![s.last()])
        }
    }
}

proof fn lemma_fields_last<T>(s: Seq<T>, sep: T)
    requires
        s.len() > 0,
        s.last() != sep,
    ensures
        fields_of(s, sep).len() > 0,
    decreases s.len(),
{
    if s.len() >= 2 && s[s.len() - 2] != sep {
        lemma_fields_last(s.drop_last(), sep);
    }
}

/// The non-empty runs of `bytes` between NUL bytes.
pub fn nul_fields(bytes: &[u8]) -> (r: Vec<Vec<u8>>)
    ensures
        r@.map_values(|f: Vec<u8>| f@) == fields_of(bytes@, 0u8),
{
    let mut fields: Vec<Vec<u8>> = Vec::new();
    let mut i: usize = 0;
    while i < bytes.len()
        invariant
            i <= bytes@.len(),
            fields@.map_values(|f: Vec<u8>| f@) == fields_of(bytes@.take(i as int), 0u8),
        decreases bytes@.len() - i,
    {
        let ghost before = fields@.map_values(|f: Vec<u8>| f@);
        let b = bytes[i];
        proof {
            assert(bytes@.take(i + 1).drop_last() =~= bytes@.take(i as int));
        }
        if b == 0 {
        } else if i >= 1 && bytes[i - 1] != 0 {
            proof {
                lemma_fields_last(bytes@.take(i as int), 0u8);
            }
            let last = fields.len() - 1;
            let mut f = fields.remove(last);
            f.push(b);
            fields.push(f);
            proof {
                assert(fields@.map_values(|f: Vec<u8>| f@) =~= before.update(before.len() - 1, before.last().push(b)));
            }
        } else {
            let mut f: Vec<u8> = Vec::new();
            f.push(b);
            fields.push(f);
            proof {
                assert(fields@.map_values(|f: Vec<u8>| f@) =~= before.push(seq![b]));
            }
        }
        i = i + 1;
    }
    assert(bytes@.take(i as int) =~= bytes@);
    fields
}

/// The texts of the non-empty NUL-separated fields of `bytes`.
pub open spec fn lossy_fields(bytes: Seq<u8>) -> Seq<Seq<char>> {
    fields_of(bytes, 0u8).map_values(|f: Seq<u8>| lossy_text(f))
}

/// The paths that `git ls-files -z` prints: every non-empty NUL-separated
/// field, decoded.
pub fn nul_separated_paths(output: &[u8]) -> (r: Vec<String>)
    ensures
        views(r@) == lossy_fields(output@),
{
    let fields = nul_fields(output);
    let mut r: Vec<String> = Vec::new();
    let mut i: usize = 0;
    while i < fields.len()
        invariant
            i <= fields@.len(),
            fields@.map_values(|f: Vec<u8>| f@) == fields_of(output@, 0u8),
            views(r@) == lossy_fields(output@).take(i as int),
        decreases fields@.len() - i,
    {
        let s = decode_lossy(fields[i].as_slice());
        let ghost old_views = views(r@);
        r.push(s);
        assert(views(r@) =~= old_views.push(s@));
        proof {
            assert(fields@.map_values(|f: Vec<u8>| f@)[i as int] == fields@[i as int]@);
            assert(lossy_fields(output@)[i as int] == lossy_text(fields_of(output@, 0u8)[i as int]));
            assert(views(r@) =~= lossy_fields(output@).take(i + 1));
        }
        i = i + 1;
    }
    assert(lossy_fields(output@).take(i as int) =~= lossy_fields(output@));
    r
}

/// The error for a record whose `what` path is missing.
pub open spec fn missing_path(status: Seq<char>, what: Seq<char>) -> Seq<char> {
    "git diff output for `"@ + status + "` was missing the "@ + what + " path"@
}

/// The paths named by `git diff --name-status -z` records, given as their
/// fields: a status, then one path, or two (old and new) for a rename or
/// copy, of which the new one counts.
pub open spec fn name_status_paths(fields: Seq<Seq<u8>>) -> Result<Seq<Seq<char>>, Seq<char>>
    decreases fields.len(),
{
    if fields.len() == 0 {
        Ok(Seq::empty())
    } else {
        let status = lossy_text(fields[0]);
        if status.len() == 0 {
            Err("git diff returned an empty status entry"@)
        } else if status[0] == 'R' || status[0] == 'C' {
            if fields.len() < 2 {
                Err(missing_path(status, "old"@))
            } else if fields.len() < 3 {
                Err(missing_path(status, "new"@))
            } else {
                match name_status_paths(fields.skip(3)) {
                    Ok(rest) => Ok(seq![lossy_text(fields[2])] + rest),
                    Err(e) => Err(e),
                }
            }
        } else if fields.len() < 2 {
            Err(missing_path(status, "changed"@))
        } else {
            match name_status_paths(fields.skip(2)) {
                Ok(rest) => Ok(seq![lossy_text(fields[1])] + rest),
                Err(e) => Err(e),
            }
        }
    }
}

/// `done` followed by the paths of `rest`, or the error of `rest`.
pub open spec fn after(done: Seq<Seq<char>>, rest: Result<Seq<Seq<char>>, Seq<char>>) -> Result<Seq<Seq<char>>, Seq<char>> {
    match rest {
        Ok(r) => Ok(done + r),
        Err(e) => Err(e),
    }
}

fn missing_message(status: &str, what: &str) -> (r: String)
    ensures
        r@ == missing_path(status@, what@),
{
    let mut m = "git diff output for `".to_owned();
    m.append(status);
    m.append("` was missing the ");
    m.append(what);
    m.append(" path");
    m
}

/// The paths of `git diff --name-status -z` output, in order.
pub fn parse_name_status_output(output: &[u8]) -> (r: Result<Vec<String>, String>)
    ensures
        match r {
            Ok(v) => name_status_paths(fields_of(output@, 0u8)) == Ok::<Seq<Seq<char>>, Seq<char>>(views(v@)),
            Err(e) => name_status_paths(fields_of(output@, 0u8)) == Err::<Seq<Seq<char>>, Seq<char>>(e@),
        },
{
    proof {
        reveal_strlit("git diff returned an empty status entry");
        reveal_strlit("old");
        reveal_strlit("new");
        reveal_strlit("changed");
    }
    let fields = nul_fields(output);
    let ghost fs = fields_of(output@, 0u8);
    let n = fields.len();
    let mut out: Vec<String> = Vec::new();
    let mut j: usize = 0;
    assert(fs.skip(0) =~= fs);
    proof {
        match name_status_paths(fs) {
            Ok(r) => { assert(views(out@) + r =~= r); }
            Err(_) => {}
        }
    }
    while j < n
        invariant
            j <= n,
            n == fields@.len(),
            fields@.map_values(|f: Vec<u8>| f@) == fs,
            fs == fields_of(output@, 0u8),
            name_status_paths(fs) == after(views(out@), name_status_paths(fs.skip(j as int))),
        decreases n - j,
    {
        let ghost rest = fs.skip(j as int);
        assert(fs.len() == n);
        assert(rest.len() == n - j);
        assert(rest[0] == fields@[j as int]@);
        let status = decode_lossy(fields[j].as_slice());
        let sc = chars_of(status.as_str());
        if sc.len() == 0 {
            return Err("git diff returned an empty status entry".to_owned());
        }
        let ghost old_out = views(out@);
        let k: usize;
        if sc[0] == 'R' || sc[0] == 'C' {
            if j + 1 >= n {
                return Err(missing_message(status.as_str(), "old"));
            }
            if j + 2 >= n {
                return Err(missing_message(status.as_str(), "new"));
            }
            assert(rest[2] == fields@[j + 2]@);
            assert(rest.skip(3) =~= fs.skip(j + 3));
            out.push(decode_lossy(fields[j + 2].as_slice()));
            k = 3;
        } else {
            if j + 1 >= n {
                return Err(missing_message(status.as_str(), "changed"));
            }
            assert(rest[1] == fields@[j + 1]@);
            assert(rest.skip(2) =~= fs.skip(j + 2));
            out.push(decode_lossy(fields[j + 1].as_slice()));
            k = 2;
        }
        proof {
            let p = views(out@).last();
            assert(views(out@) =~= old_out.push(p));
            let x = name_status_paths(fs.skip(j + k));
            assert(name_status_paths(rest) == after(seq![p], x));
            match x {
                Ok(r) => { assert(old_out + (seq![p] + r) =~= old_out.push(p) + r); }
                Err(_) => {}
            }
        }
        j = j + k;
    }
    assert(fs.skip(j as int) =~= Seq::<Seq<u8>>::empty());
    assert(views(out@) + Seq::<Seq<char>>::empty() =~= views(out@));
    Ok(out)
}

/// Which changes a diff specification asks for.
#[derive(Debug, Clone, PartialEq, Eq)]
pub enum DiffSpec {
    /// Staged, unstaged and untracked changes.
    WorkingTree,
    /// Changes in the index.
    Staged,
    /// Changes not in the index, and untracked files.
    Unstaged,
    /// Changes since the merge base of a ref and `HEAD`.
    BaseRef(String),
}

/// One of the words that name working-tree changes.
pub open spec fn is_diff_keyword(t: Seq<char>) -> bool {
    t == "working-tree"@ || t == "staged"@ || t == "unstaged"@
}

/// `d` is what the trimmed specification `t` names.
pub open spec fn names_diff(d: DiffSpec, t: Seq<char>) -> bool {
    match d {
        DiffSpec::WorkingTree => t == "working-tree"@,
        DiffSpec::Staged => t == "staged"@,
        DiffSpec::Unstaged => t == "unstaged"@,
        DiffSpec::BaseRef(r) => r@ == t && !is_diff_keyword(t),
    }
}

/// The error for a working-tree word given for a remote repository.
pub open spec fn remote_keyword_error(t: Seq<char>) -> Seq<char> {
    "diff spec `"@ + t + "` is not supported in URL mode; use a base ref such as `main` or `HEAD~1`"@
}

impl DiffSpec {
    /// Reads a diff specification; the working-tree words are refused for a
    /// remote repository, which has no working tree of the user's.
    pub fn parse(raw_spec: &str, is_remote: bool) -> (r: Result<DiffSpec, String>)
        ensures
            ({
                let t = trim_spec(raw_spec@);
                &&& t.len() == 0 ==> (r matches Err(e) && e@ == "diff spec must not be empty"@)
                &&& (t.len() > 0 && is_remote && is_diff_keyword(t)) ==> (r matches Err(e) && e@ == remote_keyword_error(t))
                &&& (t.len() > 0 && !(is_remote && is_diff_keyword(t))) ==> (r matches Ok(d) && names_diff(d, t))
            }),
    {
        proof { reveal_strlit("diff spec must not be empty"); }
        let spec = trim(raw_spec);
        if spec.as_str().is_empty() {
            return Err("diff spec must not be empty".to_owned());
        }
        let wt = str_eq(spec.as_str(), "working-tree");
        let st = str_eq(spec.as_str(), "staged");
        let us = str_eq(spec.as_str(), "unstaged");
        if is_remote && (wt || st || us) {
            let mut m = "diff spec `".to_owned();
            m.append(spec.as_str());
            m.append("` is not supported in URL mode; use a base ref such as `main` or `HEAD~1`");
            return Err(m);
        }
        if wt {
            Ok(DiffSpec::WorkingTree)
        } else if st {
            Ok(DiffSpec::Staged)
        } else if us {
            Ok(DiffSpec::Unstaged)
        } else {
            Ok(DiffSpec::BaseRef(spec))
        }
    }
}

/// A Git query whose paths make up the changes of a specification.
#[derive(Debug, Clone, PartialEq, Eq)]
pub enum ChangeSource {
    /// `git diff --cached --name-status`.
    StagedChanges,
    /// `git diff --name-status`.
    UnstagedChanges,
    /// `git ls-files --others --exclude-standard`.
    UntrackedFiles,
    /// `git diff --name-status` between the merge base with the ref and `HEAD`.
    SinceMergeBase(String),
}

/// The queries whose paths together make up the changes `spec` names.
pub open spec fn sources_of(spec: DiffSpec) -> Seq<ChangeSource> {
    match spec {
        DiffSpec::WorkingTree => seq![ChangeSource::StagedChanges, ChangeSource::UnstagedChanges, ChangeSource::UntrackedFiles],
        DiffSpec::Staged => seq![ChangeSource::StagedChanges],
        DiffSpec::Unstaged => seq![ChangeSource::UnstagedChanges, ChangeSource::UntrackedFiles],
        DiffSpec::BaseRef(r) => seq![ChangeSource::SinceMergeBase(r)],
    }
}

/// The queries to run for `spec`.
pub fn change_sources(spec: DiffSpec) -> (r: Vec<ChangeSource>)
    ensures
        r@ == sources_of(spec),
{
    let mut r: Vec<ChangeSource> = Vec::new();
    match spec {
        DiffSpec::WorkingTree => {
            r.push(ChangeSource::StagedChanges);
            r.push(ChangeSource::UnstagedChanges);
            r.push(ChangeSource::UntrackedFiles);
        },
        DiffSpec::Staged => {
            r.push(ChangeSource::StagedChanges);
        },
        DiffSpec::Unstaged => {
            r.push(ChangeSource::UnstagedChanges);
            r.push(ChangeSource::UntrackedFiles);
        },
        DiffSpec::BaseRef(b) => {
            r.push(ChangeSource::SinceMergeBase(b));
        },
    }
    assert(r@ =~= sources_of(spec));
    r
}

fn clone_string(s: &String) -> (r: String)
    ensures
        r@ == s@,
{
    s.as_str().to_owned()
}

fn push_str(v: &mut Vec<String>, s: &str)
    ensures
        views(final(v)@) == views(old(v)@).push(s@),
{
    let ghost before = views(v@);
    v.push(s.to_owned());
    assert(views(v@) =~= before.push(s@));
}

/// The arguments of `git merge-base <ref> HEAD`.
pub fn merge_base_args(base_ref: &str) -> (r: Vec<String>)
    ensures
        views(r@) == seq!["merge-base"@, base_ref@, "HEAD"@],
{
    let mut r: Vec<String> = Vec::new();
    push_str(&mut r, "merge-base");
    push_str(&mut r, base_ref);
    push_str(&mut r, "HEAD");
    assert(views(r@) =~= seq!["merge-base"@, base_ref@, "HEAD"@]);
    r
}

/// The arguments of the Git command behind `source`; `merge_base` is the
/// commit that `git merge-base` gave, used only for `SinceMergeBase`.
pub open spec fn source_args(source: ChangeSource, merge_base: Seq<char>) -> Seq<Seq<char>> {
    match source {
        ChangeSource::StagedChanges => seq!["diff"@, "--cached"@, "--name-status"@, "-z"@, "--find-renames"@],
        ChangeSource::UnstagedChanges => seq!["diff"@, "--name-status"@, "-z"@, "--find-renames"@],
        ChangeSource::UntrackedFiles => seq!["ls-files"@, "--others"@, "--exclude-standard"@, "-z"@],
        ChangeSource::SinceMergeBase(_) => seq!["diff"@, "--name-status"@, "-z"@, "--find-renames"@, merge_base, "HEAD"@],
    }
}

/// The arguments of the Git command behind `source`.
pub fn git_args(source: &ChangeSource, merge_base: &str) -> (r: Vec<String>)
    ensures
        views(r@) == source_args(*source, merge_base@),
{
    let mut r: Vec<String> = Vec::new();
    match source {
        ChangeSource::StagedChanges => {
            push_str(&mut r, "diff");
            push_str(&mut r, "--cached");
            push_str(&mut r, "--name-status");
            push_str(&mut r, "-z");
            push_str(&mut r, "--find-renames");
        },
        ChangeSource::UnstagedChanges => {
            push_str(&mut r, "diff");
            push_str(&mut r, "--name-status");
            push_str(&mut r, "-z");
            push_str(&mut r, "--find-renames");
        },
        ChangeSource::UntrackedFiles => {
            push_str(&mut r, "ls-files");
            push_str(&mut r, "--others");
            push_str(&mut r, "--exclude-standard");
            push_str(&mut r, "-z");
        },
        ChangeSource::SinceMergeBase(_) => {
            push_str(&mut r, "diff");
            push_str(&mut r, "--name-status");
            push_str(&mut r, "-z");
            push_str(&mut r, "--find-renames");
            push_str(&mut r, merge_base);
            push_str(&mut r, "HEAD");
        },
    }
    assert(views(r@) =~= source_args(*source, merge_base@));
    r
}

/// The paths that a query's output names: name-status records, or plain
/// NUL-separated paths for the untracked files.
pub fn source_paths(source: &ChangeSource, output: &[u8]) -> (r: Result<Vec<String>, String>)
    ensures
        (*source is UntrackedFiles) ==> (r matches Ok(v) && views(v@) == lossy_fields(output@)),
        !(*source is UntrackedFiles) ==> match r {
            Ok(v) => name_status_paths(fields_of(output@, 0u8)) == Ok::<Seq<Seq<char>>, Seq<char>>(views(v@)),
            Err(e) => name_status_paths(fields_of(output@, 0u8)) == Err::<Seq<Seq<char>>, Seq<char>>(e@),
        },
{
    match source {
        ChangeSource::UntrackedFiles => Ok(nul_separated_paths(output)),
        _ => parse_name_status_output(output),
    }
}

/// Every path of every list.
pub open spec fn union_all(lists: Seq<Vec<String>>) -> Set<Seq<char>>
    decreases lists.len(),
{
    if lists.len() == 0 {
        Set::empty()
    } else {
        union_all(lists.drop_last()).union(as_set(lists.last()@))
    }
}

/// The paths of all lists, each once, in ascending order.
pub fn changed_path_set(lists: &Vec<Vec<String>>) -> (r: Vec<String>)
    ensures
        strictly_sorted(views(r@)),
        as_set(r@) == union_all(lists@),
{
    let mut r: Vec<String> = Vec::new();
    assert(as_set(r@) =~= Set::<Seq<char>>::empty());
    let mut i: usize = 0;
    while i < lists.len()
        invariant
            i <= lists@.len(),
            strictly_sorted(views(r@)),
            as_set(r@) == union_all(lists@.take(i as int)),
        decreases lists@.len() - i,
    {
        assert(lists@.take(i + 1).drop_last() =~= lists@.take(i as int));
        set_extend(&mut r, &lists[i]);
        i = i + 1;
    }
    assert(lists@.take(i as int) =~= lists@);
    r
}

/// The components of a relative path: its non-empty pieces between `/`.
pub open spec fn components(p: Seq<char>) -> Seq<Seq<char>> {
    fields_of(p, '/')
}

/// `a` is a prefix of `b`.
pub open spec fn is_prefix_of(a: Seq<Seq<char>>, b: Seq<Seq<char>>) -> bool {
    a.len() <= b.len() && b.take(a.len() as int) == a
}

/// `p` is an absolute path.
pub open spec fn is_absolute(p: Seq<char>) -> bool {
    p.len() > 0 && p[0] == '/'
}

/// `path` begins with the components of `base`, and both are absolute or
/// both relative.
pub open spec fn path_starts_with(path: Seq<char>, base: Seq<char>) -> bool {
    is_absolute(path) == is_absolute(base) && is_prefix_of(components(base), components(path))
}

/// The components of `path` after those of `base`, joined with `/`.
pub open spec fn path_remainder(path: Seq<char>, base: Seq<char>) -> Seq<char> {
    join_seq(components(path).skip(components(base).len() as int), "/"@)
}

/// `path` lies in the directory `scope` (an empty scope holds everything).
pub open spec fn in_scope(path: Seq<char>, scope: Seq<char>) -> bool {
    scope.len() == 0 || path_starts_with(path, scope)
}

/// `path` relative to `scope`, when it lies there; else `path` itself.
pub open spec fn relative_to_scope(path: Seq<char>, scope: Seq<char>) -> Seq<char> {
    if scope.len() > 0 && path_starts_with(path, scope) {
        path_remainder(path, scope)
    } else {
        path
    }
}

/// The components of `s`.
pub fn path_components(s: &str) -> (r: Vec<String>)
    ensures
        views(r@) == components(s@),
{
    let cs = chars_of(s);
    let mut fields: Vec<String> = Vec::new();
    let mut i: usize = 0;
    while i < cs.len()
        invariant
            i <= cs@.len(),
            cs@ == s@,
            views(fields@) == fields_of(cs@.take(i as int), '/'),
        decreases cs@.len() - i,
    {
        let ghost before = views(fields@);
        let c = cs[i];
        proof {
            assert(cs@.take(i + 1).drop_last() =~= cs@.take(i as int));
        }
        if c == '/' {
        } else if i >= 1 && cs[i - 1] != '/' {
            proof {
                lemma_fields_last(cs@.take(i as int), '/');
            }
            let last = fields.len() - 1;
            let mut f = fields.remove(last);
            push_char(&mut f, c);
            fields.push(f);
            proof {
                assert(views(fields@) =~= before.update(before.len() - 1, before.last().push(c)));
            }
        } else {
            let mut f = String::new();
            push_char(&mut f, c);
            fields.push(f);
            proof {
                assert(f@ =~= seq![c]);
                assert(views(fields@) =~= before.push(seq![c]));
            }
        }
        i = i + 1;
    }
    assert(cs@.take(i as int) =~= cs@);
    fields
}

/// Whether the components `a` begin the components `b`.
fn components_prefix(a: &Vec<String>, b: &Vec<String>) -> (r: bool)
    ensures
        r == is_prefix_of(views(a@), views(b@)),
{
    if a.len() > b.len() {
        return false;
    }
    let mut i: usize = 0;
    while i < a.len()
        invariant
            a@.len() <= b@.len(),
            i <= a@.len(),
            views(b@).take(i as int) == views(a@).take(i as int),
        decreases a@.len() - i,
    {
        if !str_eq(a[i].as_str(), b[i].as_str()) {
            assert(views(b@).take(a@.len() as int)[i as int] != views(a@)[i as int]);
            return false;
        }
        assert(views(b@).take(i + 1) =~= views(b@).take(i as int).push(views(b@)[i as int]));
        assert(views(a@).take(i + 1) =~= views(a@).take(i as int).push(views(a@)[i as int]));
        i = i + 1;
    }
    assert(views(a@).take(i as int) =~= views(a@));
    true
}

/// Whether `path` begins with the components of `base`.
pub fn starts_with_path(path: &str, base: &str) -> (r: bool)
    ensures
        r == path_starts_with(path@, base@),
{
    let pc = chars_of(path);
    let bc = chars_of(base);
    let pa = pc.len() > 0 && pc[0] == '/';
    let ba = bc.len() > 0 && bc[0] == '/';
    pa == ba && components_prefix(&path_components(base), &path_components(path))
}

/// `path` without the components of `base`, when it begins with them.
pub fn strip_path_prefix(path: &str, base: &str) -> (r: Option<String>)
    ensures
        path_starts_with(path@, base@) ==> (r matches Some(x) && x@ == path_remainder(path@, base@)),
        !path_starts_with(path@, base@) ==> r is None,
{
    if !starts_with_path(path, base) {
        return None;
    }
    let bc = path_components(base);
    let pc = path_components(path);
    let mut rest: Vec<String> = Vec::new();
    let mut i: usize = bc.len();
    while i < pc.len()
        invariant
            bc@.len() <= i <= pc@.len(),
            views(rest@) == views(pc@).subrange(bc@.len() as int, i as int),
        decreases pc@.len() - i,
    {
        let ghost before = views(rest@);
        rest.push(clone_string(&pc[i]));
        assert(views(rest@) =~= before.push(views(pc@)[i as int]));
        assert(views(rest@) =~= views(pc@).subrange(bc@.len() as int, i + 1));
        i = i + 1;
    }
    assert(views(pc@).subrange(bc@.len() as int, i as int) =~= views(pc@).skip(bc@.len() as int));
    let r = join_strings(&rest, "/");
    Some(r)
}

/// Whether `path` lies in the directory `scope_prefix`.
pub fn is_in_scope(path: &str, scope_prefix: &str) -> (r: bool)
    ensures
        r == in_scope(path@, scope_prefix@),
{
    scope_prefix.is_empty() || starts_with_path(path, scope_prefix)
}

/// `path` relative to `scope_prefix`, when it lies there.
pub fn path_relative_to_scope(path: &str, scope_prefix: &str) -> (r: String)
    ensures
        r@ == relative_to_scope(path@, scope_prefix@),
{
    if scope_prefix.is_empty() {
        return path.to_owned();
    }
    match strip_path_prefix(path, scope_prefix) {
        Some(rel) => rel,
        None => path.to_owned(),
    }
}

/// The error for a base path outside the repository.
pub open spec fn outside_repo_error(base: Seq<char>, repo_root: Seq<char>) -> Seq<char> {
    "base path `"@ + base + "` must resolve inside git repository `"@ + repo_root + "`"@
}

/// The directory of the analysed path within the repository: the
/// canonical base path relative to the repository root, which must contain
/// it. `base_path` is the path as the user gave it, for the error.
pub fn scope_within_repo(base_path: &str, canonical_base: &str, repo_root: &str) -> (r: Result<String, String>)
    ensures
        path_starts_with(canonical_base@, repo_root@) ==> (r matches Ok(s) && s@ == path_remainder(canonical_base@, repo_root@)),
        !path_starts_with(canonical_base@, repo_root@) ==> (r matches Err(e) && e@ == outside_repo_error(base_path@, repo_root@)),
{
    match strip_path_prefix(canonical_base, repo_root) {
        Some(rel) => Ok(rel),
        None => {
            let mut m = "base path `".to_owned();
            m.append(base_path);
            m.append("` must resolve inside git repository `");
            m.append(repo_root);
            m.append("`");
            Err(m)
        },
    }
}

/// Of the changed `paths`, with `is_file` telling which still exist as
/// files: the in-scope existing ones relative to `scope`, how many lie in
/// scope, and how many of those are deleted or missing.
pub open spec fn scoped_changes(paths: Seq<Seq<char>>, is_file: Seq<bool>, scope: Seq<char>) -> (Seq<Seq<char>>, nat, nat)
    decreases paths.len(),
{
    if paths.len() == 0 || is_file.len() == 0 {
        (Seq::empty(), 0, 0)
    } else {
        let (kept, inside, skipped) = scoped_changes(paths.drop_last(), is_file.drop_last(), scope);
        let p = paths.last();
        if !in_scope(p, scope) {
            (kept, inside, skipped)
        } else if is_file.last() {
            (kept.push(relative_to_scope(p, scope)), inside + 1, skipped)
        } else {
            (kept, inside + 1, skipped + 1)
        }
    }
}

proof fn lemma_scoped_counts(paths: Seq<Seq<char>>, is_file: Seq<bool>, scope: Seq<char>)
    requires
        paths.len() == is_file.len(),
    ensures
        scoped_changes(paths, is_file, scope).2 <= scoped_changes(paths, is_file, scope).1 <= paths.len(),
    decreases paths.len(),
{
    if paths.len() > 0 {
        lemma_scoped_counts(paths.drop_last(), is_file.drop_last(), scope);
    }
}

/// The Git changes of a context pack: `changed_repo_paths` are the changed
/// paths relative to the repository root, `is_file` tells for each whether
/// it still exists as a file, and `scope_prefix` is the analysed directory
/// within the repository.
pub fn select_changed_paths(
    spec: &str,
    repo_root: &str,
    changed_repo_paths: &Vec<String>,
    is_file: &Vec<bool>,
    scope_prefix: &str,
) -> (r: ContextDiffSelection)
    requires
        changed_repo_paths@.len() == is_file@.len(),
        changed_repo_paths@.len() <= u64::MAX,
    ensures
        r.spec@ == trim_spec(spec@),
        r.repo_root@ == repo_root@,
        r.changed_files_detected == changed_repo_paths@.len(),
        views(r.changed_paths@) == scoped_changes(views(changed_repo_paths@), is_file@, scope_prefix@).0,
        r.changed_files_in_scope == scoped_changes(views(changed_repo_paths@), is_file@, scope_prefix@).1,
        r.skipped_deleted_or_missing == scoped_changes(views(changed_repo_paths@), is_file@, scope_prefix@).2,
{
    let n = changed_repo_paths.len();
    let mut kept: Vec<String> = Vec::new();
    let mut inside: u64 = 0;
    let mut skipped: u64 = 0;
    let mut i: usize = 0;
    while i < n
        invariant
            i <= n,
            n == changed_repo_paths@.len(),
            n == is_file@.len(),
            n <= u64::MAX,
            (views(kept@), inside as nat, skipped as nat) == scoped_changes(views(changed_repo_paths@).take(i as int), is_file@.take(i as int), scope_prefix@),
        decreases n - i,
    {
        proof {
            assert(views(changed_repo_paths@).take(i + 1).drop_last() =~= views(changed_repo_paths@).take(i as int));
            assert(is_file@.take(i + 1).drop_last() =~= is_file@.take(i as int));
            lemma_scoped_counts(views(changed_repo_paths@).take(i as int), is_file@.take(i as int), scope_prefix@);
        }
        let p = changed_repo_paths[i].as_str();
        if is_in_scope(p, scope_prefix) {
            if is_file[i] {
                let ghost before = views(kept@);
                kept.push(path_relative_to_scope(p, scope_prefix));
                assert(views(kept@) =~= before.push(relative_to_scope(p@, scope_prefix@)));
            } else {
                skipped = skipped + 1;
            }
            inside = inside + 1;
        }
        i = i + 1;
    }
    assert(views(changed_repo_paths@).take(i as int) =~= views(changed_repo_paths@));
    assert(is_file@.take(i as int) =~= is_file@);
    ContextDiffSelection {
        spec: trim(spec),
        repo_root: repo_root.to_owned(),
        changed_paths: kept,
        changed_files_detected: n as u64,
        changed_files_in_scope: inside,
        skipped_deleted_or_missing: skipped,
    }
}

/// The changes of the working tree are the staged changes followed by the
/// unstaged ones (which include the untracked files).
pub proof fn law_working_tree_is_staged_and_unstaged()
    ensures
        sources_of(DiffSpec::WorkingTree) == sources_of(DiffSpec::Staged) + sources_of(DiffSpec::Unstaged),
{
    assert(sources_of(DiffSpec::WorkingTree) =~= sources_of(DiffSpec::Staged) + sources_of(DiffSpec::Unstaged));
}

/// Of the changed paths, those in scope are at most all of them, and each
/// in-scope path is either selected or counted as deleted or missing.
pub proof fn law_diff_counts_add_up(paths: Seq<Seq<char>>, is_file: Seq<bool>, scope: Seq<char>)
    requires
        paths.len() == is_file.len(),
    ensures
        scoped_changes(paths, is_file, scope).0.len() + scoped_changes(paths, is_file, scope).2
            == scoped_changes(paths, is_file, scope).1,
        scoped_changes(paths, is_file, scope).1 <= paths.len(),
    decreases paths.len(),
{
    if paths.len() > 0 {
        law_diff_counts_add_up(paths.drop_last(), is_file.drop_last(), scope);
    }
}

} // verus!
