//! A plain-value model of the project metadata the commands read: packages,
//! their targets, and the `lambda` tables embedded in package and workspace
//! metadata.  The surrounding tooling loads the real metadata and converts it
//! into these types; everything that is decided from them is verified here.

use vstd::prelude::*;

use crate::lambda::MetadataError;
use crate::strmap::StrMap;

verus! {

/// One build target of a package.
pub struct CargoTarget {
    pub name: String,
    pub kind: Vec<String>,
    pub crate_types: Vec<String>,
}

/// Per-package (or per-binary) configuration under the `lambda` metadata
/// table.  Only the environment table is read by this crate.
pub struct PackageMetadata {
    pub env: StrMap<String>,
}

/// The `lambda` metadata table: package-wide configuration plus per-binary
/// overrides.
pub struct LambdaMetadata {
    pub package: PackageMetadata,
    pub bin: StrMap<PackageMetadata>,
}

/// The release-profile settings a manifest may pin down.
pub struct CargoProfileRelease {
    pub strip: Option<String>,
    pub debug_enabled: bool,
    pub lto: Option<String>,
    pub codegen_units: Option<u32>,
    pub panic: Option<String>,
}

/// The profile section of a manifest.
pub struct CargoProfile {
    pub release: Option<CargoProfileRelease>,
}

/// A package's (or the workspace's) parsed metadata: the `lambda` table and
/// the profile section.
pub struct Metadata {
    pub lambda: LambdaMetadata,
    pub profile: Option<CargoProfile>,
}

/// The state of one package's raw metadata value: not an object at all, an
/// object that parsed, or an object that did not (with the parser's words).
pub enum ManifestMetadata {
    Absent,
    Parsed(Metadata),
    Invalid(String),
}

/// One package of the project.
pub struct CargoPackage {
    pub name: String,
    pub targets: Vec<CargoTarget>,
    pub metadata: ManifestMetadata,
}

/// Everything this crate reads out of the project's metadata.
pub struct CargoMetadata {
    pub packages: Vec<CargoPackage>,
    pub target_directory: String,
    pub workspace_lambda: LambdaMetadata,
}

pub open spec fn package_metadata_wf(pm: PackageMetadata) -> bool {
    pm.env.wf()
}

pub open spec fn lambda_metadata_wf(lm: LambdaMetadata) -> bool {
    &&& lm.package.env.wf()
    &&& lm.bin.wf()
    &&& forall|k: Seq<char>|
        lm.bin@.dom().contains(k) ==> package_metadata_wf(#[trigger] lm.bin@[k])
}

pub open spec fn metadata_wf(md: Metadata) -> bool {
    lambda_metadata_wf(md.lambda)
}

pub open spec fn manifest_metadata_wf(mm: ManifestMetadata) -> bool {
    match mm {
        ManifestMetadata::Parsed(md) => metadata_wf(md),
        _ => true,
    }
}

pub open spec fn cargo_metadata_wf(m: CargoMetadata) -> bool {
    &&& lambda_metadata_wf(m.workspace_lambda)
    &&& forall|p: int|
        0 <= p < m.packages@.len() ==> manifest_metadata_wf(#[trigger] m.packages@[p].metadata)
}

/// True when some string in `s` reads `w`.
pub open spec fn seq_contains_str(s: Seq<String>, w: Seq<char>) -> bool {
    exists|i: int| 0 <= i < s.len() && #[trigger] s[i]@ == w
}

/// True when some string in `v` reads like `w`.
pub fn vec_contains_str(v: &Vec<String>, w: &String) -> (r: bool)
    ensures
        r == seq_contains_str(v@, w@),
{
    let n = v.len();
    let mut i: usize = 0;
    while i < n
        invariant
            n == v@.len(),
            i <= n,
            forall|j: int| 0 <= j < i ==> v@[j]@ != w@,
        decreases n - i,
    {
        if v[i] == *w {
            return true;
        }
        i += 1;
    }
    false
}

/// A target built as an ordinary binary.
pub open spec fn is_bin_target(t: CargoTarget) -> bool {
    seq_contains_str(t.kind@, "bin"@)
}

/// A target built as an example with a binary crate type.  Several targets
/// can have a `bin` crate type; only those whose kind is `example` count
/// here.
pub open spec fn is_example_bin_target(t: CargoTarget) -> bool {
    seq_contains_str(t.kind@, "example"@) && seq_contains_str(t.crate_types@, "bin"@)
}

/// True when `target` is an ordinary binary.
pub fn kind_bin_filter(target: &CargoTarget) -> (r: bool)
    ensures
        r == is_bin_target(*target),
{
    let w = String::from_str("bin");
    vec_contains_str(&target.kind, &w)
}

/// True when `target` is an example built as a binary.
pub fn kind_example_filter(target: &CargoTarget) -> (r: bool)
    ensures
        r == is_example_bin_target(*target),
{
    let w = String::from_str("example");
    if !vec_contains_str(&target.kind, &w) {
        return false;
    }
    let c = String::from_str("bin");
    vec_contains_str(&target.crate_types, &c)
}

/// Which targets a scan is after: ordinary binaries, or examples built as
/// binaries.
pub enum TargetFilter {
    Bin,
    Example,
}

pub open spec fn target_passes(f: TargetFilter, t: CargoTarget) -> bool {
    match f {
        TargetFilter::Bin => is_bin_target(t),
        TargetFilter::Example => is_example_bin_target(t),
    }
}

/// The names of the targets in `ts` that pass `f`, in order.
pub open spec fn passing_names(ts: Seq<CargoTarget>, f: TargetFilter) -> Seq<Seq<char>>
    decreases ts.len(),
{
    if ts.len() == 0 {
        Seq::empty()
    } else {
        let rest = passing_names(ts.drop_last(), f);
        if target_passes(f, ts.last()) {
            rest.push(ts.last().name@)
        } else {
            rest
        }
    }
}

/// The passing target names of every package of `ps`, in package order.
pub open spec fn all_passing_names(ps: Seq<CargoPackage>, f: TargetFilter) -> Seq<Seq<char>>
    decreases ps.len(),
{
    if ps.len() == 0 {
        Seq::empty()
    } else {
        all_passing_names(ps.drop_last(), f) + passing_names(ps.last().targets@, f)
    }
}

/// `s` with every later repetition of a name dropped: each name keeps its
/// first occurrence only.
pub open spec fn first_seen(s: Seq<Seq<char>>) -> Seq<Seq<char>>
    decreases s.len(),
{
    if s.len() == 0 {
        s
    } else {
        let rest = first_seen(s.drop_last());
        if rest.contains(s.last()) {
            rest
        } else {
            rest.push(s.last())
        }
    }
}

/// The distinct names of the targets of `m` that pass `f`, in the order they
/// are first met.
pub open spec fn target_names_passing(m: CargoMetadata, f: TargetFilter) -> Seq<Seq<char>> {
    first_seen(all_passing_names(m.packages@, f))
}

/// The views of a sequence of strings.
pub open spec fn string_views(s: Seq<String>) -> Seq<Seq<char>> {
    s.map_values(|x: String| x@)
}

/// Collects the names of the targets that pass `filter`, each name once, in
/// the order they are first met.
pub fn filter_binary_targets_from_metadata(metadata: &CargoMetadata, filter: TargetFilter) -> (r:
    Vec<String>)
    ensures
        string_views(r@) == target_names_passing(*metadata, filter),
{
    let mut r: Vec<String> = Vec::new();
    let np = metadata.packages.len();
    let mut p: usize = 0;
    proof {
        assert(metadata.packages@.subrange(0, 0) =~= Seq::<CargoPackage>::empty());
        assert(string_views(r@) =~= first_seen(all_passing_names(
            metadata.packages@.subrange(0, 0),
            filter,
        )));
    }
    while p < np
        invariant
            np == metadata.packages@.len(),
            p <= np,
            string_views(r@) == first_seen(all_passing_names(
                metadata.packages@.subrange(0, p as int),
                filter,
            )),
        decreases np - p,
    {
        let ghost scanned = all_passing_names(metadata.packages@.subrange(0, p as int), filter);
        let nt = metadata.packages[p].targets.len();
        let mut t: usize = 0;
        proof {
            assert(metadata.packages@[p as int].targets@.subrange(0, 0)
                =~= Seq::<CargoTarget>::empty());
            assert(scanned + passing_names(
                metadata.packages@[p as int].targets@.subrange(0, 0),
                filter,
            ) =~= scanned);
        }
        while t < nt
            invariant
                np == metadata.packages@.len(),
                p < np,
                nt == metadata.packages@[p as int].targets@.len(),
                t <= nt,
                scanned == all_passing_names(metadata.packages@.subrange(0, p as int), filter),
                string_views(r@) == first_seen(
                    scanned + passing_names(
                        metadata.packages@[p as int].targets@.subrange(0, t as int),
                        filter,
                    ),
                ),
            decreases nt - t,
        {
            let ghost pre = scanned + passing_names(
                metadata.packages@[p as int].targets@.subrange(0, t as int),
                filter,
            );
            let target = &metadata.packages[p].targets[t];
            let passes = match filter {
                TargetFilter::Bin => kind_bin_filter(target),
                TargetFilter::Example => kind_example_filter(target),
            };
            proof {
                let ts = metadata.packages@[p as int].targets@;
                assert(ts.subrange(0, t + 1 as int).drop_last() =~= ts.subrange(0, t as int));
                assert(ts.subrange(0, t + 1 as int).last() == ts[t as int]);
            }
            if passes {
                if !vec_contains_str(&r, &target.name) {
                    r.push(target.name.clone());
                    proof {
                        let ts = metadata.packages@[p as int].targets@;
                        let post = scanned + passing_names(
                            ts.subrange(0, t + 1 as int),
                            filter,
                        );
                        assert(post =~= pre.push(ts[t as int].name@));
                        assert(post.drop_last() =~= pre);
                        assert(string_views(r@) =~= first_seen(pre).push(ts[t as int].name@));
                        assert(!first_seen(pre).contains(ts[t as int].name@)) by {
                            if first_seen(pre).contains(ts[t as int].name@) {
                                let w = choose|w: int|
                                    0 <= w < first_seen(pre).len() && first_seen(pre)[w]
                                        == ts[t as int].name@;
                                assert(string_views(r@.drop_last())[w] == ts[t as int].name@);
                                assert(r@.drop_last()[w]@ == ts[t as int].name@);
                                assert(seq_contains_str(r@.drop_last(), ts[t as int].name@));
                            }
                        }
                        assert(string_views(r@) =~= first_seen(post));
                    }
                } else {
                    proof {
                        let ts = metadata.packages@[p as int].targets@;
                        let post = scanned + passing_names(
                            ts.subrange(0, t + 1 as int),
                            filter,
                        );
                        assert(post =~= pre.push(ts[t as int].name@));
                        assert(post.drop_last() =~= pre);
                        assert(first_seen(pre).contains(ts[t as int].name@)) by {
                            let w = choose|w: int| 0 <= w < r@.len() && r@[w]@
                                == ts[t as int].name@;
                            assert(string_views(r@)[w] == ts[t as int].name@);
                        }
                        assert(string_views(r@) == first_seen(post));
                    }
                }
            } else {
                proof {
                    let ts = metadata.packages@[p as int].targets@;
                    assert(passing_names(ts.subrange(0, t + 1 as int), filter)
                        =~= passing_names(ts.subrange(0, t as int), filter));
                }
            }
            t += 1;
        }
        proof {
            let ps = metadata.packages@;
            assert(ps.subrange(0, p + 1 as int).drop_last() =~= ps.subrange(0, p as int));
            assert(ps.subrange(0, p + 1 as int).last() == ps[p as int]);
            assert(ps[p as int].targets@.subrange(0, nt as int) =~= ps[p as int].targets@);
            assert(all_passing_names(ps.subrange(0, p + 1 as int), filter) =~= scanned
                + passing_names(ps[p as int].targets@, filter));
        }
        p += 1;
    }
    proof {
        assert(metadata.packages@.subrange(0, np as int) =~= metadata.packages@);
    }
    r
}

/// The binary target names of the project: its ordinary binaries, or, when
/// `build_examples` is set, its examples built as binaries.
pub fn binary_targets_from_metadata(metadata: &CargoMetadata, build_examples: bool) -> (r: Vec<
    String,
>)
    ensures
        build_examples ==> string_views(r@) == target_names_passing(
            *metadata,
            TargetFilter::Example,
        ),
        !build_examples ==> string_views(r@) == target_names_passing(*metadata, TargetFilter::Bin),
{
    if build_examples {
        filter_binary_targets_from_metadata(metadata, TargetFilter::Example)
    } else {
        filter_binary_targets_from_metadata(metadata, TargetFilter::Bin)
    }
}

/// The project's target directory, as the metadata reports it.
pub fn target_dir_from_metadata(metadata: &CargoMetadata) -> (r: String)
    ensures
        r@ == metadata.target_directory@,
{
    metadata.target_directory.clone()
}

/// The names of `s`, separated by a comma and a space.
pub open spec fn comma_join(s: Seq<Seq<char>>) -> Seq<char>
    decreases s.len(),
{
    if s.len() == 0 {
        Seq::empty()
    } else if s.len() == 1 {
        s[0]
    } else {
        comma_join(s.drop_last()) + seq![',', ' '] + s.last()
    }
}

/// Joins names with a comma and a space.
fn join_names(v: &Vec<String>) -> (r: String)
    ensures
        r@ == comma_join(string_views(v@)),
{
    let n = v.len();
    let mut r = String::new();
    let mut i: usize = 0;
    proof {
        assert(string_views(v@).subrange(0, 0) =~= Seq::<Seq<char>>::empty());
    }
    while i < n
        invariant
            n == v@.len(),
            i <= n,
            r@ == comma_join(string_views(v@).subrange(0, i as int)),
        decreases n - i,
    {
        if i > 0 {
            r.append(", ");
            proof {
                reveal_strlit(", ");
                assert(", "@ =~= seq![',', ' ']);
            }
        }
        r.append(v[i].as_str());
        proof {
            let vs = string_views(v@);
            assert(vs.subrange(0, i + 1 as int).drop_last() =~= vs.subrange(0, i as int));
            assert(vs.subrange(0, i + 1 as int).last() == v@[i as int]@);
        }
        i += 1;
    }
    proof {
        assert(string_views(v@).subrange(0, n as int) =~= string_views(v@));
    }
    r
}

/// Lexicographic order on character sequences, by code point: the order
/// strings sort in.
pub open spec fn chars_le(a: Seq<char>, b: Seq<char>) -> bool
    decreases a.len(),
{
    if a.len() == 0 {
        true
    } else if b.len() == 0 {
        false
    } else if (a[0] as u32) < (b[0] as u32) {
        true
    } else if (a[0] as u32) > (b[0] as u32) {
        false
    } else {
        chars_le(a.drop_first(), b.drop_first())
    }
}

/// The lexicographic order as a relation value, for sorting.
pub open spec fn string_le() -> spec_fn(Seq<char>, Seq<char>) -> bool {
    |a: Seq<char>, b: Seq<char>| chars_le(a, b)
}

proof fn lemma_chars_le_refl(a: Seq<char>)
    ensures
        chars_le(a, a),
    decreases a.len(),
{
    if a.len() > 0 {
        lemma_chars_le_refl(a.drop_first());
    }
}

proof fn lemma_chars_le_antisym(a: Seq<char>, b: Seq<char>)
    requires
        chars_le(a, b),
        chars_le(b, a),
    ensures
        a == b,
    decreases a.len(),
{
    if a.len() == 0 {
        assert(b.len() == 0);
        assert(a =~= b);
    } else {
        assert(a[0] as u32 == b[0] as u32);
        vstd::utf8::char_u32_cast(a[0], a[0] as u32);
        vstd::utf8::char_u32_cast(b[0], b[0] as u32);
        assert(a[0] == b[0]);
        lemma_chars_le_antisym(a.drop_first(), b.drop_first());
        assert(a =~= seq![a[0]] + a.drop_first());
        assert(b =~= seq![b[0]] + b.drop_first());
        assert(a =~= b);
    }
}

proof fn lemma_chars_le_trans(a: Seq<char>, b: Seq<char>, c: Seq<char>)
    requires
        chars_le(a, b),
        chars_le(b, c),
    ensures
        chars_le(a, c),
    decreases a.len(),
{
    if a.len() > 0 {
        assert(b.len() > 0);
        assert(c.len() > 0);
        if a[0] as u32 == b[0] as u32 && b[0] as u32 == c[0] as u32 {
            lemma_chars_le_trans(a.drop_first(), b.drop_first(), c.drop_first());
        }
    }
}

proof fn lemma_chars_le_connected(a: Seq<char>, b: Seq<char>)
    ensures
        chars_le(a, b) || chars_le(b, a),
    decreases a.len(),
{
    if a.len() > 0 && b.len() > 0 && a[0] as u32 == b[0] as u32 {
        lemma_chars_le_connected(a.drop_first(), b.drop_first());
    }
}

/// The lexicographic order is a total order, so sorting by it has one
/// outcome.
pub proof fn lemma_string_le_total_ordering()
    ensures
        vstd::relations::total_ordering(string_le()),
{
    assert forall|a: Seq<char>| #[trigger] string_le()(a, a) by {
        lemma_chars_le_refl(a);
    }
    assert forall|a: Seq<char>, b: Seq<char>|
        #[trigger] string_le()(a, b) && #[trigger] string_le()(b, a) implies a == b by {
        lemma_chars_le_antisym(a, b);
    }
    assert forall|a: Seq<char>, b: Seq<char>, c: Seq<char>|
        #[trigger] string_le()(a, b) && #[trigger] string_le()(b, c) implies string_le()(
        a,
        c,
    ) by {
        lemma_chars_le_trans(a, b, c);
    }
    assert forall|a: Seq<char>, b: Seq<char>| #[trigger] string_le()(a, b) || #[trigger] string_le()(
        b,
        a,
    ) by {
        lemma_chars_le_connected(a, b);
    }
}

/// Compares two strings in lexicographic order.
fn str_le(a: &str, b: &str) -> (r: bool)
    ensures
        r == chars_le(a@, b@),
{
    let an = a.unicode_len();
    let bn = b.unicode_len();
    let mut i: usize = 0;
    proof {
        assert(a@.skip(0) =~= a@);
        assert(b@.skip(0) =~= b@);
    }
    while i < an && i < bn
        invariant
            i <= an,
            i <= bn,
            an == a@.len(),
            bn == b@.len(),
            chars_le(a@, b@) == chars_le(a@.skip(i as int), b@.skip(i as int)),
        decreases an - i,
    {
        let ca = a.get_char(i) as u32;
        let cb = b.get_char(i) as u32;
        proof {
            assert(a@.skip(i as int)[0] == a@[i as int]);
            assert(b@.skip(i as int)[0] == b@[i as int]);
        }
        if ca < cb {
            return true;
        }
        if ca > cb {
            return false;
        }
        proof {
            assert(a@.skip(i as int).drop_first() =~= a@.skip(i + 1 as int));
            assert(b@.skip(i as int).drop_first() =~= b@.skip(i + 1 as int));
        }
        i += 1;
    }
    if i == an {
        proof {
            assert(a@.skip(i as int).len() == 0);
        }
        true
    } else {
        proof {
            assert(a@.skip(i as int).len() > 0);
            assert(b@.skip(i as int).len() == 0);
        }
        false
    }
}

/// Sorts strings in lexicographic order: the result is exactly the sorted
/// permutation of the input.
pub fn sort_strings(v: Vec<String>) -> (r: Vec<String>)
    ensures
        string_views(r@) == string_views(v@).sort_by(string_le()),
{
    broadcast use vstd::seq_lib::group_to_multiset_ensures;

    let ghost views0 = string_views(v@);
    let n = v.len();
    let mut arr = v;
    let mut i: usize = 1;
    while i < n
        invariant
            1 <= i <= n || n == 0,
            n == arr@.len(),
            views0.len() == n,
            string_views(arr@).to_multiset() == views0.to_multiset(),
            vstd::relations::sorted_by(
                string_views(arr@).subrange(0, i as int),
                string_le(),
            ) || n == 0,
        decreases n - i,
    {
        let ghost before = string_views(arr@);
        let x = arr.remove(i);
        let ghost mid = string_views(arr@);
        proof {
            assert(mid =~= before.remove(i as int));
            assert(mid.subrange(0, i as int) =~= before.subrange(0, i as int));
        }
        let mut j: usize = 0;
        while j < i && str_le(arr[j].as_str(), x.as_str())
            invariant
                j <= i,
                i < n,
                n == arr@.len() + 1,
                mid == string_views(arr@),
                forall|k: int| 0 <= k < j ==> chars_le(mid[k], x@),
            decreases i - j,
        {
            j += 1;
        }
        proof {
            if j < i {
                assert(!chars_le(mid[j as int], x@));
                lemma_chars_le_connected(mid[j as int], x@);
                assert(chars_le(x@, mid[j as int]));
            }
        }
        arr.insert(j, x);
        proof {
            let after = string_views(arr@);
            assert(after =~= mid.insert(j as int, x@));
            assert(after.to_multiset() == views0.to_multiset()) by {
                vstd::seq_lib::to_multiset_remove(before, i as int);
                assert(mid.to_multiset() =~= before.to_multiset().remove(before[i as int]));
                vstd::seq_lib::to_multiset_insert(mid, j as int, x@);
                assert(after.to_multiset() =~= mid.to_multiset().insert(x@));
                vstd::seq_lib::to_multiset_contains(before, before[i as int]);
                assert(before.to_multiset().contains(before[i as int]));
                assert(before.to_multiset() =~= mid.to_multiset().insert(x@));
            }
            assert forall|p: int, q: int| 0 <= p < q < i + 1 implies #[trigger] string_le()(
                after.subrange(0, i + 1 as int)[p],
                after.subrange(0, i + 1 as int)[q],
            ) by {
                let pre = after.subrange(0, i + 1 as int);
                assert(forall|k: int| 0 <= k < j ==> pre[k] == mid[k]);
                assert(pre[j as int] == x@);
                assert(forall|k: int| j < k < i + 1 ==> pre[k] == mid[k - 1]);
                let old_pre = mid.subrange(0, i as int);
                assert(forall|k: int| 0 <= k < i ==> mid[k] == old_pre[k]);
                if q < j {
                    assert(string_le()(old_pre[p], old_pre[q]));
                } else if q == j {
                    assert(chars_le(mid[p], x@));
                } else if p == j {
                    // x sits just before the first element it is not above.
                    assert(chars_le(x@, mid[j as int]));
                    if q - 1 > j {
                        assert(string_le()(old_pre[j as int], old_pre[q - 1]));
                        lemma_chars_le_trans(x@, mid[j as int], mid[q - 1]);
                    }
                } else if p < j {
                    assert(chars_le(mid[p], x@));
                    assert(chars_le(x@, mid[j as int]));
                    if q - 1 > j {
                        assert(string_le()(old_pre[j as int], old_pre[q - 1]));
                        lemma_chars_le_trans(x@, mid[j as int], mid[q - 1]);
                    }
                    lemma_chars_le_trans(mid[p], x@, mid[q - 1]);
                } else {
                    assert(string_le()(old_pre[p - 1], old_pre[q - 1]));
                }
            }
        }
        i += 1;
    }
    proof {
        if n == 0 {
            assert(string_views(arr@) =~= views0);
            assert(views0.len() == 0);
        }
        assert(string_views(arr@).subrange(0, n as int) =~= string_views(arr@));
        assert(vstd::relations::sorted_by(string_views(arr@), string_le()));
        lemma_string_le_total_ordering();
        views0.lemma_sort_by_ensures(string_le());
        vstd::seq_lib::lemma_sorted_unique(
            string_views(arr@),
            views0.sort_by(string_le()),
            string_le(),
        );
        assert(string_views(arr@) =~= views0.sort_by(string_le()));
    }
    arr
}

/// Selects the one binary of the project, for when the user named none: one
/// binary target is returned, none is an error, and more than one is an
/// error naming them all.
pub fn main_binary_from_metadata(metadata: &CargoMetadata) -> (r: Result<String, MetadataError>)
    ensures
        target_names_passing(*metadata, TargetFilter::Bin).len() == 1 ==> (r matches Ok(nm)
            && nm@ == target_names_passing(*metadata, TargetFilter::Bin)[0]),
        target_names_passing(*metadata, TargetFilter::Bin).len() == 0 ==> r == Err::<
            String,
            MetadataError,
        >(MetadataError::MissingBinaryInProject),
        target_names_passing(*metadata, TargetFilter::Bin).len() > 1 ==> (r matches Err(e)
            && e matches MetadataError::MultipleBinariesInProject(msg) && msg@ == comma_join(
            target_names_passing(*metadata, TargetFilter::Bin).sort_by(string_le()),
        )),
{
    let mut targets = binary_targets_from_metadata(metadata, false);
    if targets.len() > 1 {
        let sorted = sort_strings(targets);
        let joined = join_names(&sorted);
        Err(MetadataError::MultipleBinariesInProject(joined))
    } else if targets.len() == 0 {
        Err(MetadataError::MissingBinaryInProject)
    } else {
        let name = targets.remove(0);
        proof {
            assert(name@ == target_names_passing(*metadata, TargetFilter::Bin)[0]);
        }
        Ok(name)
    }
}

/// The release-profile switch that strips symbols.
pub const STRIP_CONFIG: &'static str = "profile.release.strip=\"symbols\"";

/// The release-profile switch that enables thin link-time optimisation.
pub const LTO_CONFIG: &'static str = "profile.release.lto=\"thin\"";

/// The release-profile switch that builds with one codegen unit.
pub const CODEGEN_CONFIG: &'static str = "profile.release.codegen-units=1";

/// The release-profile switch that aborts on panic.
pub const PANIC_CONFIG: &'static str = "profile.release.panic=\"abort\"";

pub open spec fn strip_overridden(md: Metadata) -> bool {
    match md.profile {
        Some(p) => match p.release {
            Some(rel) => rel.strip is Some || rel.debug_enabled,
            None => false,
        },
        None => false,
    }
}

pub open spec fn lto_overridden(md: Metadata) -> bool {
    match md.profile {
        Some(p) => match p.release {
            Some(rel) => rel.lto is Some,
            None => false,
        },
        None => false,
    }
}

pub open spec fn codegen_overridden(md: Metadata) -> bool {
    match md.profile {
        Some(p) => match p.release {
            Some(rel) => rel.codegen_units is Some,
            None => false,
        },
        None => false,
    }
}

pub open spec fn panic_overridden(md: Metadata) -> bool {
    match md.profile {
        Some(p) => match p.release {
            Some(rel) => rel.panic is Some,
            None => false,
        },
        None => false,
    }
}

/// The release-profile switches still worth passing on the command line:
/// each default switch, except where the manifest settles the matter itself.
pub open spec fn release_profile_flags(md: Metadata) -> Seq<&'static str> {
    (if !strip_overridden(md) {
        seq![STRIP_CONFIG]
    } else {
        Seq::empty()
    }) + (if !lto_overridden(md) {
        seq![LTO_CONFIG]
    } else {
        Seq::empty()
    }) + (if !codegen_overridden(md) {
        seq![CODEGEN_CONFIG]
    } else {
        Seq::empty()
    }) + (if !panic_overridden(md) {
        seq![PANIC_CONFIG]
    } else {
        Seq::empty()
    })
}

/// The release-profile switches to pass for a manifest: the stripping,
/// link-time-optimisation, codegen-unit and panic defaults, minus whatever
/// the manifest's own release profile already decides.
pub fn cargo_release_profile_config_from_metadata(metadata: &Metadata) -> (r: Vec<&'static str>)
    ensures
        r@ == release_profile_flags(*metadata),
{
    let mut r: Vec<&'static str> = Vec::new();
    let (strip_set, lto_set, codegen_set, panic_set): (bool, bool, bool, bool) =
        match &metadata.profile {
        Some(p) => match &p.release {
            Some(rel) => (
                rel.strip.is_some() || rel.debug_enabled,
                rel.lto.is_some(),
                rel.codegen_units.is_some(),
                rel.panic.is_some(),
            ),
            None => (false, false, false, false),
        },
        None => (false, false, false, false),
    };
    if !strip_set {
        r.push(STRIP_CONFIG);
    }
    if !lto_set {
        r.push(LTO_CONFIG);
    }
    if !codegen_set {
        r.push(CODEGEN_CONFIG);
    }
    if !panic_set {
        r.push(PANIC_CONFIG);
    }
    proof {
        assert(r@ =~= release_profile_flags(*metadata));
    }
    r
}

/// A target that contributes environment entries for the selected name: it
/// carries that name, is built as a binary, and its package carries a
/// metadata object.
pub open spec fn env_target_matches(t: CargoTarget, sel: Seq<char>, md: ManifestMetadata) -> bool {
    t.name@ == sel && seq_contains_str(t.kind@, "bin"@) && !(md is Absent)
}

/// The environment after folding in the targets of `pkg` from index `t` on:
/// each matching target layers the package's `lambda` environment, then the
/// selected binary's, over `env`; a matching target whose metadata object
/// did not parse stops the fold with that error.
pub open spec fn env_after_targets(
    env: Map<Seq<char>, String>,
    pkg: CargoPackage,
    sel: Seq<char>,
    t: int,
) -> Result<Map<Seq<char>, String>, MetadataError>
    decreases pkg.targets@.len() - t,
{
    if t < 0 || t >= pkg.targets@.len() {
        Ok(env)
    } else if env_target_matches(pkg.targets@[t], sel, pkg.metadata) {
        match pkg.metadata {
            ManifestMetadata::Parsed(md) => {
                let with_pkg = env.union_prefer_right(md.lambda.package.env@);
                let with_bin = if md.lambda.bin@.dom().contains(sel) {
                    with_pkg.union_prefer_right(md.lambda.bin@[sel].env@)
                } else {
                    with_pkg
                };
                env_after_targets(with_bin, pkg, sel, t + 1)
            },
            ManifestMetadata::Invalid(words) => Err(MetadataError::InvalidCargoMetadata(words)),
            ManifestMetadata::Absent => Ok(env),
        }
    } else {
        env_after_targets(env, pkg, sel, t + 1)
    }
}

/// The per-package name the environment is collected for: the name the
/// caller gave, or the package's own.
pub open spec fn selected_name(name: Option<Seq<char>>, pkg: CargoPackage) -> Seq<char> {
    match name {
        Some(n) => n,
        None => pkg.name@,
    }
}

/// The environment after folding in the packages of `ps` from index `p` on.
pub open spec fn env_after_packages(
    env: Map<Seq<char>, String>,
    ps: Seq<CargoPackage>,
    name: Option<Seq<char>>,
    p: int,
) -> Result<Map<Seq<char>, String>, MetadataError>
    decreases ps.len() - p,
{
    if p < 0 || p >= ps.len() {
        Ok(env)
    } else {
        match env_after_targets(env, ps[p], selected_name(name, ps[p]), 0) {
            Ok(e) => env_after_packages(e, ps, name, p + 1),
            Err(er) => Err(er),
        }
    }
}

/// The view of an optional string.
pub open spec fn opt_string_view(name: Option<&String>) -> Option<Seq<char>> {
    match name {
        Some(n) => Some(n@),
        None => None,
    }
}

/// The whole environment for `name`: the workspace's `lambda` environment,
/// the workspace's per-binary entries for `name`, then each package's
/// contribution in package order.
pub open spec fn function_environment_spec(m: CargoMetadata, name: Option<Seq<char>>) -> Result<
    Map<Seq<char>, String>,
    MetadataError,
> {
    let ws = m.workspace_lambda.package.env@;
    let start = match name {
        Some(n) => if m.workspace_lambda.bin@.dom().contains(n) {
            ws.union_prefer_right(m.workspace_lambda.bin@[n].env@)
        } else {
            ws
        },
        None => ws,
    };
    env_after_packages(start, m.packages@, name, 0)
}

/// Collects the environment variables a function's process is started with,
/// from the workspace's and every relevant package's `lambda` metadata; a
/// matching package whose metadata object does not parse is an error.
pub fn function_environment_from_metadata(metadata: &CargoMetadata, name: Option<&String>) -> (r:
    Result<StrMap<String>, MetadataError>)
    requires
        cargo_metadata_wf(*metadata),
    ensures
        function_environment_spec(*metadata, opt_string_view(name)) matches Ok(e) ==> (r matches
            Ok(env) && env.wf() && env@ == e),
        function_environment_spec(*metadata, opt_string_view(name)) matches Err(er) ==> (r matches
            Err(er2) && er2 == er),
{
    let ghost nm = opt_string_view(name);
    let ghost goal = function_environment_spec(*metadata, nm);
    let mut env: StrMap<String> = StrMap::new();
    env.extend_from(&metadata.workspace_lambda.package.env);
    proof {
        assert(env@ =~= metadata.workspace_lambda.package.env@);
    }
    if let Some(n) = name {
        match metadata.workspace_lambda.bin.get(n) {
            Some(pm) => {
                env.extend_from(&pm.env);
            },
            None => {},
        }
    }
    let np = metadata.packages.len();
    let mut p: usize = 0;
    while p < np
        invariant
            np == metadata.packages@.len(),
            p <= np,
            cargo_metadata_wf(*metadata),
            nm == opt_string_view(name),
            goal == function_environment_spec(*metadata, nm),
            env.wf(),
            env_after_packages(env@, metadata.packages@, nm, p as int) == goal,
        decreases np - p,
    {
        let pkg = &metadata.packages[p];
        let sel: &String = match name {
            Some(n) => n,
            None => &pkg.name,
        };
        let ghost selv = selected_name(nm, metadata.packages@[p as int]);
        proof {
            assert(sel@ == selv);
        }
        let ghost pkg_goal = env_after_targets(env@, metadata.packages@[p as int], selv, 0);
        let nt = pkg.targets.len();
        let mut t: usize = 0;
        let bin_string = String::from_str("bin");
        while t < nt
            invariant
                np == metadata.packages@.len(),
                p < np,
                nt == metadata.packages@[p as int].targets@.len(),
                t <= nt,
                cargo_metadata_wf(*metadata),
                bin_string@ == "bin"@,
                selv == sel@,
                nm == opt_string_view(name),
                goal == function_environment_spec(*metadata, nm),
                env.wf(),
                pkg_goal == env_after_targets(env@, metadata.packages@[p as int], selv, t as int),
                match pkg_goal {
                    Ok(e) => env_after_packages(e, metadata.packages@, nm, p + 1) == goal,
                    Err(er) => goal == Err::<Map<Seq<char>, String>, MetadataError>(er),
                },
            decreases nt - t,
        {
            let pkg = &metadata.packages[p];
            let target = &pkg.targets[t];
            let name_matches = target.name == *sel;
            let kind_matches = vec_contains_str(&target.kind, &bin_string);
            let is_object = !matches!(pkg.metadata, ManifestMetadata::Absent);
            if name_matches && kind_matches && is_object {
                match &pkg.metadata {
                    ManifestMetadata::Parsed(md) => {
                        env.extend_from(&md.lambda.package.env);
                        match md.lambda.bin.get(sel) {
                            Some(pm) => {
                                env.extend_from(&pm.env);
                            },
                            None => {},
                        }
                    },
                    ManifestMetadata::Invalid(words) => {
                        return Err(MetadataError::InvalidCargoMetadata(words.clone()));
                    },
                    ManifestMetadata::Absent => {},
                }
            }
            t += 1;
        }
        p += 1;
    }
    Ok(env)
}

} // verus!
