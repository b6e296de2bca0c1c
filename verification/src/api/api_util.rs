//! The checks the service makes on what a request names: the sources to
//! compile, and the radix of a value.
use crate::api::api_types::ApiError;
use crate::sim_types::SimRadix;
use crate::text::{chars_eq, chars_of, split_chars, split_on, views};
use vstd::prelude::*;

verus! {

/// Whether a path is absolute: it starts with `/`.
pub open spec fn is_absolute(p: Seq<char>) -> bool {
    p.len() > 0 && p[0] == '/'
}

/// Whether a path has a `..` component, one that leads to a parent
/// directory.
pub open spec fn has_parent_component(p: Seq<char>) -> bool {
    exists|i: int| 0 <= i < split_on(p, '/').len() && #[trigger] split_on(p, '/')[i] == ".."@
}

/// The components of a path that name something: the pieces between `/`
/// other than empty ones and `.`.
pub open spec fn named_parts(ps: Seq<Seq<char>>) -> Seq<Seq<char>>
    decreases ps.len(),
{
    if ps.len() == 0 {
        Seq::empty()
    } else {
        let r = named_parts(ps.drop_last());
        if ps.last().len() == 0 || ps.last() == "."@ {
            r
        } else {
            r.push(ps.last())
        }
    }
}

/// Whether `path` lies under `root`, component by component: both absolute
/// or both relative, and the components of `root` begin those of `path`.
pub open spec fn within(path: Seq<char>, root: Seq<char>) -> bool {
    let a = named_parts(split_on(path, '/'));
    let b = named_parts(split_on(root, '/'));
    &&& is_absolute(path) == is_absolute(root)
    &&& b.len() <= a.len()
    &&& a.take(b.len() as int) == b
}

/// What the file system says of a source path, joined to the work
/// directory: that it does not exist, that it or the work directory cannot
/// be resolved, or the two resolved paths.
pub enum DependencyProbe {
    Missing,
    Unresolvable,
    WorkDirUnresolvable,
    Resolved { path: String, work_dir: String },
}

/// The answer for a source path `p` that is neither absolute nor leads to a
/// parent, given what the file system says of it: its resolved path when it
/// exists and lies within the work directory; else a refusal that quotes
/// it, or a failure.
pub open spec fn probe_outcome(p: Seq<char>, probe: DependencyProbe, r: Result<String, ApiError>) -> bool {
    match probe {
        DependencyProbe::Missing => r matches Err(ApiError::BadRequest(m)) && m@ == p,
        DependencyProbe::Unresolvable => r matches Err(ApiError::Internal(m)) && m@
            == "Failed to canonicalize dependency path"@,
        DependencyProbe::WorkDirUnresolvable => r matches Err(ApiError::Internal(m)) && m@
            == "Failed to canonicalize work_dir"@,
        DependencyProbe::Resolved { path, work_dir } => if within(path@, work_dir@) {
            r matches Ok(c) && c@ == path@
        } else {
            r matches Err(ApiError::BadRequest(m)) && m@ == p
        },
    }
}

/// Whether the path `p` is refused before the file system is asked: it is
/// absolute or leads to a parent.
pub open spec fn refused_outright(p: Seq<char>) -> bool {
    is_absolute(p) || has_parent_component(p)
}

fn view_parts(ps: &Vec<Vec<char>>) -> (r: Vec<Vec<char>>)
    ensures
        views(r@) == named_parts(views(ps@)),
{
    let dot = chars_of(".");
    let mut r: Vec<Vec<char>> = Vec::new();
    let mut i: usize = 0;
    while i < ps.len()
        invariant
            i <= ps.len(),
            dot@ == "."@,
            views(r@) == named_parts(views(ps@).take(i as int)),
        decreases ps.len() - i,
    {
        let ghost t = views(ps@).take(i + 1);
        assert(t.drop_last() =~= views(ps@).take(i as int));
        assert(t.last() == ps@[i as int]@);
        if ps[i].len() > 0 && !chars_eq(&ps[i], &dot) {
            let ghost prev = r@;
            r.push(ps[i].clone());
            assert(views(r@) =~= views(prev).push(ps@[i as int]@));
        }
        i = i + 1;
    }
    assert(views(ps@).take(ps.len() as int) =~= views(ps@));
    r
}

/// Whether `path` lies under `root`, component by component.
pub fn path_within(path: &str, root: &str) -> (b: bool)
    ensures
        b == within(path@, root@),
{
    let p = chars_of(path);
    let q = chars_of(root);
    let pa = p.len() > 0 && p[0] == '/';
    let qa = q.len() > 0 && q[0] == '/';
    if pa != qa {
        return false;
    }
    let a = view_parts(&split_chars(&p, '/'));
    let b = view_parts(&split_chars(&q, '/'));
    if b.len() > a.len() {
        return false;
    }
    let mut i: usize = 0;
    while i < b.len()
        invariant
            i <= b.len() <= a.len(),
            views(a@) == named_parts(split_on(path@, '/')),
            views(b@) == named_parts(split_on(root@, '/')),
            views(a@).take(i as int) == views(b@).take(i as int),
        decreases b.len() - i,
    {
        if !chars_eq(&a[i], &b[i]) {
            assert(views(a@).take(b.len() as int)[i as int] != views(b@)[i as int]);
            return false;
        }
        assert(views(a@).take(i + 1) =~= views(a@).take(i as int).push(a@[i as int]@));
        assert(views(b@).take(i + 1) =~= views(b@).take(i as int).push(b@[i as int]@));
        i = i + 1;
    }
    assert(views(b@).take(b.len() as int) =~= views(b@));
    true
}

/// Refuses, quoting it, a source path that is absolute or has a `..`
/// component.
pub fn check_dependency_path(p: &str) -> (r: Result<(), ApiError>)
    ensures
        refused_outright(p@) ==> (r matches Err(ApiError::BadRequest(m)) && m@ == p@),
        !refused_outright(p@) ==> r is Ok,
{
    let s = chars_of(p);
    if s.len() > 0 && s[0] == '/' {
        return Err(ApiError::BadRequest(p.to_owned()));
    }
    let pieces = split_chars(&s, '/');
    let up = chars_of("..");
    let mut i: usize = 0;
    while i < pieces.len()
        invariant
            i <= pieces.len(),
            up@ == ".."@,
            views(pieces@) == split_on(p@, '/'),
            forall|j: int| 0 <= j < i ==> #[trigger] split_on(p@, '/')[j] != ".."@,
        decreases pieces.len() - i,
    {
        assert(views(pieces@)[i as int] == pieces@[i as int]@);
        if chars_eq(&pieces[i], &up) {
            return Err(ApiError::BadRequest(p.to_owned()));
        }
        i = i + 1;
    }
    Ok(())
}

/// The answer for the source path `p` given what the file system says of
/// it.
pub fn dependency_outcome(p: &str, probe: DependencyProbe) -> (r: Result<String, ApiError>)
    requires
        !refused_outright(p@),
    ensures
        probe_outcome(p@, probe, r),
{
    match probe {
        DependencyProbe::Missing => Err(ApiError::BadRequest(p.to_owned())),
        DependencyProbe::Unresolvable => Err(
            ApiError::Internal(String::from_str("Failed to canonicalize dependency path")),
        ),
        DependencyProbe::WorkDirUnresolvable => Err(
            ApiError::Internal(String::from_str("Failed to canonicalize work_dir")),
        ),
        DependencyProbe::Resolved { path, work_dir } => {
            if path_within(path.as_str(), work_dir.as_str()) {
                Ok(path)
            } else {
                Err(ApiError::BadRequest(p.to_owned()))
            }
        },
    }
}

/// Whether `r` is an answer that `probe` may give for the `i`th path and
/// that resolves it to `resolved`.
pub open spec fn accepted<F: Fn(&str) -> DependencyProbe>(
    probe: F,
    p: &str,
    resolved: Seq<char>,
) -> bool {
    &&& !refused_outright(p@)
    &&& exists|pr: DependencyProbe, c: String|
        #![trigger call_ensures(probe, (p,), pr), probe_outcome(p@, pr, Ok::<String, ApiError>(c))]
        call_ensures(probe, (p,), pr) && c@ == resolved && probe_outcome(
            p@,
            pr,
            Ok::<String, ApiError>(c),
        )
}

/// Whether `e` is the error that the path `p` is answered with.
pub open spec fn rejected<F: Fn(&str) -> DependencyProbe>(probe: F, p: &str, e: ApiError) -> bool {
    if refused_outright(p@) {
        e matches ApiError::BadRequest(m) && m@ == p@
    } else {
        exists|pr: DependencyProbe|
            #![trigger call_ensures(probe, (p,), pr)]
            call_ensures(probe, (p,), pr) && probe_outcome(p@, pr, Err::<String, ApiError>(e))
    }
}

/// Checks the source paths in order and appends each one's resolved path to
/// `resolved_deps`; stops at the first path that is absolute, leads to a
/// parent, does not exist, cannot be resolved or resolves outside the work
/// directory. `probe` asks the file system about a path joined to the work
/// directory, and is asked only about paths that pass the first two checks.
pub fn verify_dependencies<F: Fn(&str) -> DependencyProbe>(
    paths: Vec<&str>,
    resolved_deps: &mut Vec<String>,
    probe: F,
) -> (r: Result<(), ApiError>)
    requires
        forall|p: &str| call_requires(probe, (p,)),
    ensures
        final(resolved_deps)@.len() >= old(resolved_deps)@.len(),
        final(resolved_deps)@.take(old(resolved_deps)@.len() as int) == old(resolved_deps)@,
        forall|i: int|
            0 <= i < final(resolved_deps)@.len() - old(resolved_deps)@.len() ==> accepted(
                probe,
                paths@[i],
                #[trigger] final(resolved_deps)@[old(resolved_deps)@.len() + i]@,
            ),
        r is Ok ==> final(resolved_deps)@.len() == old(resolved_deps)@.len() + paths@.len(),
        r matches Err(e) ==> {
            let k = final(resolved_deps)@.len() - old(resolved_deps)@.len();
            k < paths@.len() && rejected(probe, paths@[k], e)
        },
{
    let ghost start = resolved_deps@;
    let mut i: usize = 0;
    while i < paths.len()
        invariant
            i <= paths.len(),
            start == old(resolved_deps)@,
            forall|p: &str| call_requires(probe, (p,)),
            resolved_deps@.len() == start.len() + i,
            resolved_deps@.take(start.len() as int) == start,
            forall|j: int|
                0 <= j < i ==> accepted(probe, paths@[j], #[trigger] resolved_deps@[start.len() + j]@),
        decreases paths.len() - i,
    {
        let p = paths[i];
        match check_dependency_path(p) {
            Err(e) => {
                return Err(e);
            },
            Ok(()) => {},
        }
        let pr = probe(p);
        match dependency_outcome(p, pr) {
            Ok(c) => {
                let ghost before = resolved_deps@;
                let ghost cv = c@;
                proof {
                    assert(call_ensures(probe, (p,), pr));
                    assert(probe_outcome(p@, pr, Ok::<String, ApiError>(c)));
                }
                resolved_deps.push(c);
                assert(resolved_deps@.take(start.len() as int) =~= before.take(start.len() as int));
                assert(accepted(probe, paths@[i as int], resolved_deps@[start.len() + i]@));
            },
            Err(e) => {
                proof {
                    assert(call_ensures(probe, (p,), pr));
                }
                return Err(e);
            },
        }
        i = i + 1;
    }
    Ok(())
}

/// The radix a value's digits suggest: binary when it has only `0` and `1`
/// (or nothing), else decimal when it has only decimal digits, else
/// hexadecimal when it has only hexadecimal digits; unknown otherwise.
pub open spec fn inferred_radix(v: Seq<char>) -> SimRadix {
    if forall|i: int| 0 <= i < v.len() ==> #[trigger] v[i] == '0' || v[i] == '1' {
        SimRadix::Binary
    } else if forall|i: int| 0 <= i < v.len() ==> is_dec(#[trigger] v[i]) {
        SimRadix::Decimal
    } else if forall|i: int| 0 <= i < v.len() ==> is_hex(#[trigger] v[i]) {
        SimRadix::Hexadecimal
    } else {
        SimRadix::Unknown
    }
}

/// A decimal digit `0`-`9`.
pub open spec fn is_dec(c: char) -> bool {
    '0' <= c <= '9'
}

/// A hexadecimal digit `0`-`9`, `a`-`f` or `A`-`F`.
pub open spec fn is_hex(c: char) -> bool {
    is_dec(c) || ('a' <= c <= 'f') || ('A' <= c <= 'F')
}

pub fn infer_radix(value: &str) -> (r: SimRadix)
    ensures
        r == inferred_radix(value@),
{
    let v = chars_of(value);
    let mut bin = true;
    let mut dec = true;
    let mut hex = true;
    let mut i: usize = 0;
    while i < v.len()
        invariant
            i <= v.len(),
            v@ == value@,
            bin == forall|j: int| 0 <= j < i ==> #[trigger] v@[j] == '0' || v@[j] == '1',
            dec == forall|j: int| 0 <= j < i ==> is_dec(#[trigger] v@[j]),
            hex == forall|j: int| 0 <= j < i ==> is_hex(#[trigger] v@[j]),
        decreases v.len() - i,
    {
        let c = v[i];
        let cb = c == '0' || c == '1';
        let cd = '0' <= c && c <= '9';
        let ch = cd || ('a' <= c && c <= 'f') || ('A' <= c && c <= 'F');
        bin = bin && cb;
        dec = dec && cd;
        hex = hex && ch;
        i = i + 1;
    }
    if bin {
        SimRadix::Binary
    } else if dec {
        SimRadix::Decimal
    } else if hex {
        SimRadix::Hexadecimal
    } else {
        SimRadix::Unknown
    }
}

/// A source path that the service accepts is relative, has no `..`
/// component, and was resolved by the file system to the path recorded,
/// which lies within the resolved work directory.
pub proof fn lemma_accepted_within_work_dir<F: Fn(&str) -> DependencyProbe>(
    probe: F,
    p: &str,
    resolved: Seq<char>,
)
    requires
        accepted(probe, p, resolved),
    ensures
        !is_absolute(p@),
        !has_parent_component(p@),
        exists|path: String, work_dir: String|
            #![trigger within(path@, work_dir@)]
            call_ensures(probe, (p,), DependencyProbe::Resolved { path, work_dir }) && path@
                == resolved && within(path@, work_dir@),
{
    let (pr, c) = choose|pr: DependencyProbe, c: String|
        call_ensures(probe, (p,), pr) && c@ == resolved && probe_outcome(
            p@,
            pr,
            Ok::<String, ApiError>(c),
        );
    match pr {
        DependencyProbe::Resolved { path, work_dir } => {
            assert(within(path@, work_dir@));
        },
        _ => {},
    }
}

} // verus!
