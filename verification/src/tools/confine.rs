//! Confinement of user paths under the sandbox root.
//!
//! Paths are handled as their components, as `std::path` sees them on Unix:
//! the pieces between slashes, empty pieces and `.` left out. The filesystem
//! part (canonicalising the root and the deepest existing ancestor of the
//! candidate) is done by the caller; what is decided here is the candidate,
//! the lexical resolution of the part that does not exist yet, and the
//! containment check.

use vstd::prelude::*;
use crate::config::{trim_end_char, trim_end_char_chars};
use crate::text::{append_chars, chars_of, eq_chars, first_index, lemma_first_index, lemma_first_index_is, split, split_chars, string_of, views};

verus! {

/// Why a path was refused or could not be resolved.
#[derive(Debug, Clone, PartialEq, Eq)]
pub enum SandboxError {
    /// The path resolves outside the sandbox root.
    PathEscape { path: String, root: String },
    /// The sandbox root itself cannot be resolved.
    InvalidRoot(String),
    /// An existing ancestor of the path could not be resolved.
    AncestorResolutionFailed { ancestor: String, message: String },
}

/// The text of an error.
pub open spec fn sandbox_error_text(e: SandboxError) -> Seq<char> {
    match e {
        SandboxError::PathEscape { path, root } => "VNL-SBX-001: path escapes sandbox root: "@
            + path@ + " (resolved outside "@ + root@ + ")"@,
        SandboxError::InvalidRoot(r) => "VNL-SBX-002: invalid sandbox root: "@ + r@,
        SandboxError::AncestorResolutionFailed { ancestor, message } =>
            "VNL-SBX-003: failed to resolve path ancestor "@ + ancestor@ + ": "@ + message@,
    }
}

impl SandboxError {
    /// The text of the error, as shown to the caller of a tool.
    pub fn message(&self) -> (r: String)
        ensures
            r@ == sandbox_error_text(*self),
    {
        let mut out: Vec<char>;
        match self {
            SandboxError::PathEscape { path, root } => {
                out = chars_of("VNL-SBX-001: path escapes sandbox root: ");
                let a = chars_of(path.as_str());
                append_chars(&mut out, a.as_slice());
                let b = chars_of(" (resolved outside ");
                append_chars(&mut out, b.as_slice());
                let c = chars_of(root.as_str());
                append_chars(&mut out, c.as_slice());
                let d = chars_of(")");
                append_chars(&mut out, d.as_slice());
            },
            SandboxError::InvalidRoot(r) => {
                out = chars_of("VNL-SBX-002: invalid sandbox root: ");
                let a = chars_of(r.as_str());
                append_chars(&mut out, a.as_slice());
            },
            SandboxError::AncestorResolutionFailed { ancestor, message } => {
                out = chars_of("VNL-SBX-003: failed to resolve path ancestor ");
                let a = chars_of(ancestor.as_str());
                append_chars(&mut out, a.as_slice());
                let b = chars_of(": ");
                append_chars(&mut out, b.as_slice());
                let c = chars_of(message.as_str());
                append_chars(&mut out, c.as_slice());
            },
        }
        string_of(out.as_slice())
    }
}

// ── components ──────────────────────────────────────────────────────────────

/// A path starts at the root directory.
pub open spec fn is_absolute(p: Seq<char>) -> bool {
    p.len() > 0 && p[0] == '/'
}

/// A piece between slashes that names a component (not empty, not `.`).
pub open spec fn is_component(seg: Seq<char>) -> bool {
    seg.len() > 0 && seg != "."@
}

/// The components of a path: the pieces between slashes, empty pieces and
/// `.` left out.
pub open spec fn components(p: Seq<char>) -> Seq<Seq<char>> {
    split(p, '/').filter(|seg: Seq<char>| is_component(seg))
}

/// `Path::starts_with`: same kind (absolute or not) and the components of
/// `base` lead those of `p`.
pub open spec fn path_starts_with(p: Seq<char>, base: Seq<char>) -> bool {
    is_absolute(p) == is_absolute(base) && components(base).len() <= components(p).len()
        && components(p).take(components(base).len() as int) == components(base)
}

/// Lexical join: each `..` drops the last component (none left: nothing
/// happens), every other component is appended.
pub open spec fn join_components(base: Seq<Seq<char>>, suffix: Seq<Seq<char>>) -> Seq<Seq<char>>
    decreases suffix.len(),
{
    if suffix.len() == 0 {
        base
    } else {
        let prev = join_components(base, suffix.drop_last());
        if suffix.last() == ".."@ {
            if prev.len() > 0 {
                prev.drop_last()
            } else {
                prev
            }
        } else {
            prev.push(suffix.last())
        }
    }
}

/// The absolute path with the given components: `/` then the components
/// joined by `/`.
pub open spec fn render_absolute(comps: Seq<Seq<char>>) -> Seq<char>
    decreases comps.len(),
{
    if comps.len() == 0 {
        "/"@
    } else if comps.len() == 1 {
        seq!['/'] + comps[0]
    } else {
        render_absolute(comps.drop_last()) + seq!['/'] + comps.last()
    }
}

/// The components of a path.
pub fn path_components(p: &str) -> (r: Vec<Vec<char>>)
    ensures
        views(r@) == components(p@),
{
    let v = chars_of(p);
    let segs = split_chars(v.as_slice(), '/');
    let ghost all = split(p@, '/');
    let dot = chars_of(".");
    let mut r: Vec<Vec<char>> = Vec::new();
    let mut i: usize = 0;
    while i < segs.len()
        invariant
            i <= segs@.len(),
            views(segs@) == all,
            all == split(p@, '/'),
            dot@ == "."@,
            views(r@) == all.take(i as int).filter(|seg: Seq<char>| is_component(seg)),
        decreases segs.len() - i,
    {
        let ghost before = views(r@);
        assert(all.take(i + 1) == all.take(i as int).push(all[i as int]));
        assert(views(segs@)[i as int] == segs@[i as int]@);
        if segs[i].len() > 0 && !eq_chars(segs[i].as_slice(), dot.as_slice()) {
            let seg = segs[i].clone();
            assert(seg@ == segs@[i as int]@);
            r.push(seg);
            assert(views(r@) =~= before.push(segs@[i as int]@));
        }
        proof {
            all.take(i as int).lemma_filter_push(all[i as int], |seg: Seq<char>| is_component(seg));
        }
        i = i + 1;
    }
    assert(all.take(segs@.len() as int) == all);
    r
}

/// Lexically resolves `suffix` on top of `base` (components): `..` drops the
/// last component, if any; every other component is appended.
pub fn join_lexical(base: &Vec<Vec<char>>, suffix: &Vec<Vec<char>>) -> (r: Vec<Vec<char>>)
    ensures
        views(r@) == join_components(views(base@), views(suffix@)),
{
    let mut r: Vec<Vec<char>> = base.clone();
    proof {
        assert forall|k: int| 0 <= k < r@.len() implies #[trigger] r@[k]@ == base@[k]@ by {
            assert(cloned::<Vec<char>>(base@[k], r@[k]));
        }
        assert(views(r@) =~= views(base@));
    }
    let dotdot = chars_of("..");
    let mut i: usize = 0;
    while i < suffix.len()
        invariant
            i <= suffix@.len(),
            dotdot@ == ".."@,
            views(r@) == join_components(views(base@), views(suffix@).take(i as int)),
        decreases suffix.len() - i,
    {
        let ghost before = views(r@);
        let ghost s = views(suffix@).take(i + 1);
        assert(s.drop_last() =~= views(suffix@).take(i as int));
        assert(s.last() == suffix@[i as int]@);
        if eq_chars(suffix[i].as_slice(), dotdot.as_slice()) {
            if r.len() > 0 {
                r.pop();
                assert(views(r@) =~= before.drop_last());
            }
        } else {
            let seg = suffix[i].clone();
            r.push(seg);
            assert(views(r@) =~= before.push(suffix@[i as int]@));
        }
        i = i + 1;
    }
    assert(views(suffix@).take(suffix@.len() as int) =~= views(suffix@));
    r
}

/// The absolute path with the given components.
pub fn render_absolute_path(comps: &Vec<Vec<char>>) -> (r: String)
    ensures
        r@ == render_absolute(views(comps@)),
{
    let mut out: Vec<char> = Vec::new();
    let mut i: usize = 0;
    while i < comps.len()
        invariant
            i <= comps@.len(),
            i > 0 ==> out@ == render_absolute(views(comps@).take(i as int)),
            i == 0 ==> out@.len() == 0,
        decreases comps.len() - i,
    {
        let ghost t = views(comps@).take(i + 1);
        assert(t.drop_last() =~= views(comps@).take(i as int));
        assert(t.last() == comps@[i as int]@);
        out.push('/');
        append_chars(&mut out, comps[i].as_slice());
        if i == 0 {
            assert(out@ =~= seq!['/'] + comps@[0]@);
        } else {
            assert(out@ =~= render_absolute(views(comps@).take(i as int)) + seq!['/'] + comps@[
                i as int
            ]@);
        }
        i = i + 1;
    }
    if comps.len() == 0 {
        return "/".to_owned();
    }
    assert(views(comps@).take(comps@.len() as int) =~= views(comps@));
    string_of(out.as_slice())
}

/// Whether `pre` leads `all` (component-wise).
fn components_lead(all: &Vec<Vec<char>>, pre: &Vec<Vec<char>>) -> (b: bool)
    ensures
        b == (views(pre@).len() <= views(all@).len() && views(all@).take(views(pre@).len() as int)
            == views(pre@)),
{
    if pre.len() > all.len() {
        return false;
    }
    let mut i: usize = 0;
    while i < pre.len()
        invariant
            pre@.len() <= all@.len(),
            i <= pre@.len(),
            forall|k: int| 0 <= k < i ==> all@[k]@ == pre@[k]@,
        decreases pre.len() - i,
    {
        if !eq_chars(all[i].as_slice(), pre[i].as_slice()) {
            assert(views(all@).take(views(pre@).len() as int)[i as int] != views(pre@)[i as int]);
            return false;
        }
        i = i + 1;
    }
    assert(views(all@).take(views(pre@).len() as int) =~= views(pre@));
    true
}

// ── confinement ─────────────────────────────────────────────────────────────

/// `Path::join` of a relative path: a separator is added unless `base` is
/// empty or already ends with one.
pub open spec fn path_join(base: Seq<char>, rel: Seq<char>) -> Seq<char> {
    if base.len() == 0 {
        rel
    } else if base.last() == '/' {
        base + rel
    } else {
        base + seq!['/'] + rel
    }
}

/// The path to confine for a user path: `None` when the user path is empty
/// or only slashes (the root itself); else the user path without trailing
/// slashes, taken as is when absolute and joined to the sandbox root when
/// relative.
pub open spec fn confine_candidate_spec(sandbox_root: Seq<char>, user_path: Seq<char>) -> Option<
    Seq<char>,
> {
    let trimmed = trim_end_char(user_path, '/');
    if trimmed.len() == 0 {
        None
    } else if is_absolute(trimmed) {
        Some(trimmed)
    } else {
        Some(path_join(sandbox_root, trimmed))
    }
}

/// The path to confine for a user path (see `confine_candidate_spec`).
pub fn confine_candidate(sandbox_root: &str, user_path: &str) -> (r: Option<String>)
    ensures
        match r {
            Some(c) => confine_candidate_spec(sandbox_root@, user_path@) == Some(c@),
            None => confine_candidate_spec(sandbox_root@, user_path@) is None,
        },
{
    let u = chars_of(user_path);
    let trimmed = trim_end_char_chars(u.as_slice(), '/');
    if trimmed.len() == 0 {
        return None;
    }
    if trimmed[0] == '/' {
        return Some(string_of(trimmed.as_slice()));
    }
    let mut out = chars_of(sandbox_root);
    if out.len() > 0 && out[out.len() - 1] != '/' {
        out.push('/');
    }
    append_chars(&mut out, trimmed.as_slice());
    Some(string_of(out.as_slice()))
}

/// The outcome of confinement once the filesystem part is done: the
/// not-yet-existing `suffix` is resolved lexically on top of the canonical
/// deepest existing ancestor; the result is accepted only inside the
/// canonical root, else the user path is refused as escaping it.
pub open spec fn confine_resolve_spec(
    user_path: Seq<char>,
    root: Seq<char>,
    ancestor: Seq<char>,
    suffix: Seq<char>,
) -> Result<Seq<char>, SandboxError> {
    let joined = join_components(components(ancestor), components(suffix));
    let rc = components(root);
    if rc.len() <= joined.len() && joined.take(rc.len() as int) == rc {
        Ok(render_absolute(joined))
    } else {
        Err(
            SandboxError::PathEscape {
                path: arbitrary_string_with(user_path),
                root: arbitrary_string_with(root),
            },
        )
    }
}

/// Some `String` whose characters are `s` (the errors carry strings).
pub closed spec fn arbitrary_string_with(s: Seq<char>) -> String {
    choose|x: String| x@ == s
}

/// Resolves a path under the sandbox root once the filesystem part is done.
///
/// `root` is the canonical sandbox root and `ancestor` the canonical deepest
/// existing ancestor of the candidate (both absolute); `suffix` is the part of
/// the candidate below that ancestor, which does not exist yet. The suffix is
/// resolved lexically (`..` pops a component) and the result must lie under
/// the root, else the user path is refused with `PathEscape`.
pub fn confine_resolve(user_path: &str, root: &str, ancestor: &str, suffix: &str) -> (r: Result<
    String,
    SandboxError,
>)
    requires
        is_absolute(root@),
        is_absolute(ancestor@),
    ensures
        match r {
            Ok(p) => confine_resolve_spec(user_path@, root@, ancestor@, suffix@) == Ok::<
                Seq<char>,
                SandboxError,
            >(p@),
            Err(e) => e matches SandboxError::PathEscape { path, root: rt } && path@ == user_path@
                && rt@ == root@ && confine_resolve_spec(user_path@, root@, ancestor@, suffix@) is Err,
        },
        r matches Ok(p) ==> path_starts_with(p@, root@),
{
    let base = path_components(ancestor);
    let sfx = path_components(suffix);
    let joined = join_lexical(&base, &sfx);
    let rc = path_components(root);
    if components_lead(&joined, &rc) {
        let out = render_absolute_path(&joined);
        proof {
            lemma_confined_under_root(user_path@, root@, ancestor@, suffix@);
        }
        Ok(out)
    } else {
        Err(SandboxError::PathEscape { path: user_path.to_owned(), root: root.to_owned() })
    }
}

/// Splitting on `/` around a slash splits both sides.
pub proof fn lemma_split_around_slash(x: Seq<char>, y: Seq<char>)
    ensures
        split(x + seq!['/'] + y, '/') == split(x, '/') + split(y, '/'),
    decreases x.len(),
{
    let s = x + seq!['/'] + y;
    lemma_first_index(x, '/');
    let j = first_index(x, '/');
    if j >= x.len() {
        assert forall|k: int| 0 <= k < x.len() implies s[k] != '/' by {
            assert(s[k] == x[k]);
        }
        lemma_first_index_is(s, '/', x.len() as int);
        assert(s.take(x.len() as int) =~= x);
        assert(s.skip((x.len() + 1) as int) =~= y);
        assert(split(x, '/') == seq![x]);
    } else {
        assert forall|k: int| 0 <= k < j implies s[k] != '/' by {
            assert(s[k] == x[k]);
        }
        assert(s[j as int] == x[j as int]);
        lemma_first_index_is(s, '/', j as int);
        let rest = x.skip((j + 1) as int);
        assert(s.take(j as int) =~= x.take(j as int));
        assert(s.skip((j + 1) as int) =~= rest + seq!['/'] + y);
        lemma_split_around_slash(rest, y);
        assert(split(s, '/') =~= seq![x.take(j as int)] + (split(rest, '/') + split(y, '/')));
    }
}

/// A piece with no slash splits into itself.
pub proof fn lemma_split_no_slash(c: Seq<char>)
    requires
        !c.contains('/'),
    ensures
        split(c, '/') == seq![c],
{
    assert forall|k: int| 0 <= k < c.len() implies c[k] != '/' by {
        if c[k] == '/' {
            assert(c.contains('/'));
        }
    }
    lemma_first_index_is(c, '/', c.len() as int);
}

/// Proper components without slashes.
pub open spec fn plain_components(comps: Seq<Seq<char>>) -> bool {
    forall|k: int| 0 <= k < comps.len() ==> is_component(#[trigger] comps[k]) && !comps[k].contains('/')
}

/// The components of a rendered absolute path are the rendered components,
/// when they are all proper components without slashes.
pub proof fn lemma_render_components(comps: Seq<Seq<char>>)
    requires
        plain_components(comps),
    ensures
        is_absolute(render_absolute(comps)),
        components(render_absolute(comps)) == comps,
    decreases comps.len(),
{
    let f = |seg: Seq<char>| is_component(seg);
    let e = Seq::<char>::empty();
    assert(split(e, '/') == seq![e]) by {
        lemma_split_no_slash(e);
    }
    if comps.len() == 0 {
        reveal_strlit("/");
        assert(render_absolute(comps) =~= e + seq!['/'] + e);
        lemma_split_around_slash(e, e);
        assert(split(render_absolute(comps), '/') =~= seq![e, e]);
        assert(seq![e, e] =~= seq![e].push(e));
        seq![e].lemma_filter_push(e, f);
        Seq::<Seq<char>>::empty().lemma_filter_push(e, f);
        assert(seq![e] =~= Seq::<Seq<char>>::empty().push(e));
    } else if comps.len() == 1 {
        let c = comps[0];
        assert(render_absolute(comps) =~= e + seq!['/'] + c);
        lemma_split_around_slash(e, c);
        lemma_split_no_slash(c);
        assert(split(render_absolute(comps), '/') =~= seq![e].push(c));
        seq![e].lemma_filter_push(c, f);
        Seq::<Seq<char>>::empty().lemma_filter_push(e, f);
        assert(seq![e] =~= Seq::<Seq<char>>::empty().push(e));
        assert(comps =~= seq![c]);
    } else {
        let init = comps.drop_last();
        let c = comps.last();
        assert(plain_components(init)) by {
            assert forall|k: int| 0 <= k < init.len() implies is_component(#[trigger] init[k])
                && !init[k].contains('/') by {
                assert(init[k] == comps[k]);
            }
        }
        lemma_render_components(init);
        let r = render_absolute(init);
        assert(render_absolute(comps) == r + seq!['/'] + c);
        lemma_split_around_slash(r, c);
        lemma_split_no_slash(c);
        assert(split(render_absolute(comps), '/') =~= split(r, '/').push(c));
        split(r, '/').lemma_filter_push(c, f);
        assert(comps =~= init.push(c));
    }
}

/// Joining proper components keeps them proper: `..` is never appended.
pub proof fn lemma_join_plain(base: Seq<Seq<char>>, suffix: Seq<Seq<char>>)
    requires
        plain_components(base),
        plain_components(suffix),
    ensures
        plain_components(join_components(base, suffix)),
    decreases suffix.len(),
{
    if suffix.len() > 0 {
        lemma_join_plain(base, suffix.drop_last());
        let prev = join_components(base, suffix.drop_last());
        assert(suffix.last() == suffix[suffix.len() - 1]);
        if suffix.last() != ".."@ {
            assert forall|k: int| 0 <= k < prev.push(suffix.last()).len() implies is_component(
                #[trigger] prev.push(suffix.last())[k],
            ) && !prev.push(suffix.last())[k].contains('/') by {
                if k < prev.len() {
                    assert(prev.push(suffix.last())[k] == prev[k]);
                }
            }
        } else if prev.len() > 0 {
            assert forall|k: int| 0 <= k < prev.drop_last().len() implies is_component(
                #[trigger] prev.drop_last()[k],
            ) && !prev.drop_last()[k].contains('/') by {
                assert(prev.drop_last()[k] == prev[k]);
            }
        }
    }
}

/// The components of a path are proper components without slashes.
pub proof fn lemma_components_plain(p: Seq<char>)
    ensures
        plain_components(components(p)),
{
    let f = |seg: Seq<char>| is_component(seg);
    lemma_split_pieces_no_slash(p);
    let sp = split(p, '/');
    assert forall|k: int| 0 <= k < components(p).len() implies is_component(
        #[trigger] components(p)[k],
    ) && !components(p)[k].contains('/') by {
        sp.lemma_filter_pred(f, k);
        assert(sp.filter(f).contains(components(p)[k]));
        sp.lemma_filter_contains_rev(f, components(p)[k]);
        let j = choose|j: int| 0 <= j < sp.len() && sp[j] == components(p)[k];
        assert(!sp[j].contains('/'));
    }
}

/// No piece of a split on `/` holds a slash.
pub proof fn lemma_split_pieces_no_slash(p: Seq<char>)
    ensures
        forall|k: int| 0 <= k < split(p, '/').len() ==> !(#[trigger] split(p, '/')[k]).contains('/'),
    decreases p.len(),
{
    lemma_first_index(p, '/');
    let i = first_index(p, '/');
    if i >= p.len() {
        assert(split(p, '/') == seq![p]);
        assert forall|k: int| 0 <= k < split(p, '/').len() implies !(#[trigger] split(p, '/')[k]).contains('/') by {
            if p.contains('/') {
                let m = choose|m: int| 0 <= m < p.len() && p[m] == '/';
                assert(m < i);
            }
        }
    } else {
        let rest = p.skip((i + 1) as int);
        lemma_split_pieces_no_slash(rest);
        let head = p.take(i as int);
        assert(split(p, '/') == seq![head] + split(rest, '/'));
        assert forall|k: int| 0 <= k < split(p, '/').len() implies !(#[trigger] split(p, '/')[k]).contains('/') by {
            if k == 0 {
                if head.contains('/') {
                    let m = choose|m: int| 0 <= m < head.len() && head[m] == '/';
                    assert(head[m] == p[m]);
                }
            } else {
                assert(split(p, '/')[k] == split(rest, '/')[k - 1]);
            }
        }
    }
}

/// Confinement: whatever `confine_resolve` accepts lies under the root, as
/// `Path::starts_with` sees it.
pub proof fn lemma_confined_under_root(user_path: Seq<char>, root: Seq<char>, ancestor: Seq<char>, suffix: Seq<char>)
    requires
        is_absolute(root),
        confine_resolve_spec(user_path, root, ancestor, suffix) is Ok,
    ensures
        path_starts_with(confine_resolve_spec(user_path, root, ancestor, suffix)->Ok_0, root),
{
    lemma_components_plain(ancestor);
    lemma_components_plain(suffix);
    let joined = join_components(components(ancestor), components(suffix));
    lemma_join_plain(components(ancestor), components(suffix));
    lemma_render_components(joined);
}

/// A suffix without `..` never climbs: resolving it on top of a base keeps
/// every component of the base, in front.
pub proof fn lemma_no_parent_stays_below(base: Seq<Seq<char>>, suffix: Seq<Seq<char>>)
    requires
        forall|k: int| 0 <= k < suffix.len() ==> suffix[k] != ".."@,
    ensures
        join_components(base, suffix) == base + suffix,
    decreases suffix.len(),
{
    if suffix.len() > 0 {
        lemma_no_parent_stays_below(base, suffix.drop_last());
        assert(suffix.last() == suffix[suffix.len() - 1]);
        assert(base + suffix =~= (base + suffix.drop_last()).push(suffix.last()));
    } else {
        assert(base + suffix =~= base);
    }
}

} // verus!
