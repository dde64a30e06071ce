//! Operators: the closed set of known names, tier selection from a
//! requested version string, install and uninstall intents, and the
//! version listings drawn from the tier repository indexes.

use vstd::prelude::*;

use crate::arguments::OutputType;
use crate::catalog::{contains_key, first_index_of, Catalog, CatalogSeq};
use crate::text::{concat_str, spec_contains_str, spec_ends_with, str_contains, str_ends_with, str_eq};
use crate::version::{
    all_versions_parse, parsed_semver, sort_versions_newest_first, versions_sorted_descending,
    views_of, VersionParseError,
};

verus! {

/// The command-line surface for operators.
pub enum CliCommandOperator {
    /// List all the available operators.
    List { output: OutputType },
    /// Show details of a specific operator.
    Describe { operator: String, output: OutputType },
    /// Install one or multiple operators.
    Install { operators: Vec<Operator>, kind_cluster: bool, kind_cluster_name: String },
    /// Uninstall one or multiple operators.
    Uninstall { operators: Vec<String> },
    /// List installed operators.
    Installed { output: OutputType },
}

/// One of the three package repositories, by build maturity.
#[derive(Clone, Copy, PartialEq, Eq, Structural, Debug)]
pub enum RepoTier {
    Stable,
    Test,
    Dev,
}

impl RepoTier {
    /// The repository name the deployment tool knows this tier under.
    pub open spec fn spec_name(self) -> Seq<char> {
        match self {
            RepoTier::Stable => "stackable-stable"@,
            RepoTier::Test => "stackable-test"@,
            RepoTier::Dev => "stackable-dev"@,
        }
    }

    /// The repository name, as text.
    pub fn name(self) -> (r: &'static str)
        ensures
            r@ == self.spec_name(),
    {
        match self {
            RepoTier::Stable => "stackable-stable",
            RepoTier::Test => "stackable-test",
            RepoTier::Dev => "stackable-dev",
        }
    }
}

/// The characters of an optional version request.
pub open spec fn version_view(v: Option<String>) -> Option<Seq<char>> {
    match v {
        Option::None => Option::None,
        Option::Some(s) => Option::Some(s@),
    }
}

/// The tier an install request selects: none or a `-nightly`/`-dev`
/// suffix asks for dev builds, a `-pr` marker for test builds, anything
/// else for stable.
pub open spec fn spec_tier_for(version: Option<Seq<char>>) -> RepoTier {
    match version {
        Option::None => RepoTier::Dev,
        Option::Some(v) => {
            if spec_ends_with(v, "-nightly"@) {
                RepoTier::Dev
            } else if spec_ends_with(v, "-dev"@) {
                RepoTier::Dev
            } else if spec_contains_str(v, "-pr"@) {
                RepoTier::Test
            } else {
                RepoTier::Stable
            }
        },
    }
}

/// Select the tier for an optional requested version.
pub fn tier_for(version: &Option<String>) -> (r: RepoTier)
    ensures
        r == spec_tier_for(version_view(*version)),
{
    match version {
        Option::None => RepoTier::Dev,
        Option::Some(v) => {
            if str_ends_with(v.as_str(), "-nightly") {
                RepoTier::Dev
            } else if str_ends_with(v.as_str(), "-dev") {
                RepoTier::Dev
            } else if str_contains(v.as_str(), "-pr") {
                RepoTier::Test
            } else {
                RepoTier::Stable
            }
        },
    }
}

/// The names of the operators this tool knows, in listing order.
pub open spec fn spec_known_operators() -> Seq<Seq<char>> {
    seq![
        "airflow"@,
        "commons"@,
        "druid"@,
        "hbase"@,
        "hdfs"@,
        "hello-world"@,
        "hive"@,
        "kafka"@,
        "listener"@,
        "nifi"@,
        "opa"@,
        "secret"@,
        "spark-k8s"@,
        "superset"@,
        "trino"@,
        "zookeeper"@,
    ]
}

/// Whether `name` belongs to the closed set of known operators.
pub open spec fn is_known_operator(name: Seq<char>) -> bool {
    spec_known_operators().contains(name)
}

/// The known operator names, in listing order.
pub fn known_operators() -> (r: Vec<String>)
    ensures
        views_of(r@) =~= spec_known_operators(),
{
    let mut v: Vec<String> = Vec::new();
    v.push(String::from_str("airflow"));
    v.push(String::from_str("commons"));
    v.push(String::from_str("druid"));
    v.push(String::from_str("hbase"));
    v.push(String::from_str("hdfs"));
    v.push(String::from_str("hello-world"));
    v.push(String::from_str("hive"));
    v.push(String::from_str("kafka"));
    v.push(String::from_str("listener"));
    v.push(String::from_str("nifi"));
    v.push(String::from_str("opa"));
    v.push(String::from_str("secret"));
    v.push(String::from_str("spark-k8s"));
    v.push(String::from_str("superset"));
    v.push(String::from_str("trino"));
    v.push(String::from_str("zookeeper"));
    proof {
        assert(views_of(v@) =~= spec_known_operators());
    }
    v
}

/// Whether `name` is a known operator.
pub fn known_operator(name: &str) -> (r: bool)
    ensures
        r == is_known_operator(name@),
{
    let ops = known_operators();
    let n = ops.len();
    let mut i: usize = 0;
    while i < n
        invariant
            i <= n,
            n == spec_known_operators().len(),
            views_of(ops@) =~= spec_known_operators(),
            forall|j: int| 0 <= j < i ==> spec_known_operators()[j] != name@,
        decreases n - i,
    {
        if str_eq(name, ops[i].as_str()) {
            proof {
                assert(spec_known_operators()[i as int] == name@);
            }
            return true;
        }
        i += 1;
    }
    proof {
        if is_known_operator(name@) {
            let w = choose|w: int|
                0 <= w < spec_known_operators().len() && spec_known_operators()[w] == name@;
            assert(spec_known_operators()[w] != name@);
        }
    }
    false
}

/// One operator to act on: a validated name and an optional requested
/// version.
#[derive(Debug)]
pub struct Operator {
    pub name: String,
    pub version: Option<String>,
}

/// One install order for the deployment tool: which chart, from which
/// tier, under which release name, at which version.
#[derive(Debug)]
pub struct HelmInstallIntent {
    pub release_name: String,
    pub chart_name: String,
    pub repo: RepoTier,
    pub version: Option<String>,
}

impl Operator {
    /// Accept only known operator names; anything else is a user error
    /// carrying the explanatory message.
    pub fn new(name: String, version: Option<String>) -> (r: Result<Operator, String>)
        ensures
            r is Ok <==> is_known_operator(name@),
            r is Ok ==> r->Ok_0.name == name && r->Ok_0.version == version,
            r is Err ==> r->Err_0@ == "The operator "@ + name@
                + " does not exist or stackablectl is too old to know the operator"@,
    {
        if !known_operator(name.as_str()) {
            let msg = concat_str(
                concat_str("The operator ", name.as_str()).as_str(),
                " does not exist or stackablectl is too old to know the operator",
            );
            Err(msg)
        } else {
            Ok(Operator { name, version })
        }
    }

    /// The install order this operator resolves to: the `{name}-operator`
    /// chart out of the tier its version string selects.
    pub fn install(&self) -> (r: HelmInstallIntent)
        ensures
            r.release_name@ == self.name@ + "-operator"@,
            r.chart_name@ == self.name@ + "-operator"@,
            r.repo == spec_tier_for(version_view(self.version)),
            version_view(r.version) == version_view(self.version),
    {
        let release_name = concat_str(self.name.as_str(), "-operator");
        let chart_name = concat_str(self.name.as_str(), "-operator");
        let repo = tier_for(&self.version);
        let version = match &self.version {
            Option::None => Option::None,
            Option::Some(v) => Option::Some(v.clone()),
        };
        HelmInstallIntent { release_name, chart_name, repo, version }
    }
}

/// The release names to hand the deployment tool for uninstalling, one
/// `{operator}-operator` per given name, in order.  No name is checked
/// against the known set: any string is accepted.
pub fn uninstall_operators(operators: &Vec<String>) -> (r: Vec<String>)
    ensures
        r@.len() == operators@.len(),
        forall|i: int|
            0 <= i < r@.len() ==> (#[trigger] r@[i])@ == operators@[i]@ + "-operator"@,
{
    let n = operators.len();
    let mut r: Vec<String> = Vec::new();
    let mut i: usize = 0;
    while i < n
        invariant
            i <= n,
            n == operators@.len(),
            r@.len() == i,
            forall|j: int|
                0 <= j < i ==> (#[trigger] r@[j])@ == operators@[j]@ + "-operator"@,
        decreases n - i,
    {
        r.push(concat_str(operators[i].as_str(), "-operator"));
        i += 1;
    }
    r
}

/// What a correct newest-first listing of `op`'s chart versions out of
/// `index` is: when the `{op}-operator` chart is listed, a sorted
/// permutation of versions that all parse; when it is not, nothing.
pub open spec fn tier_versions_ok(
    out: Seq<String>,
    index: CatalogSeq<Vec<String>>,
    op: Seq<char>,
) -> bool {
    let chart = op + "-operator"@;
    if contains_key(index, chart) {
        let vals = index[first_index_of(index, chart)].1;
        &&& all_versions_parse(vals@)
        &&& versions_sorted_descending(out)
        &&& views_of(out).to_multiset() == views_of(vals@).to_multiset()
    } else {
        out.len() == 0
    }
}

/// Whether the `{op}-operator` chart of `index` lists a version string
/// that is no semantic version.
pub open spec fn tier_has_unparseable(index: CatalogSeq<Vec<String>>, op: Seq<char>) -> bool {
    let chart = op + "-operator"@;
    contains_key(index, chart) && !all_versions_parse(
        index[first_index_of(index, chart)].1@,
    )
}

/// The failed tier resolution pins the first chart entry that does not
/// parse.
pub open spec fn tier_first_unparseable(
    e: VersionParseError,
    index: CatalogSeq<Vec<String>>,
    op: Seq<char>,
) -> bool {
    let chart = op + "-operator"@;
    contains_key(index, chart) && {
        let vals = index[first_index_of(index, chart)].1;
        exists|i: int|
            {
                &&& 0 <= i < vals@.len()
                &&& parsed_semver(#[trigger] vals@[i]@) is None
                &&& e.version@ == vals@[i]@
                &&& forall|j: int| 0 <= j < i ==> parsed_semver(#[trigger] vals@[j]@) is Some
            }
    }
}

/// The available versions of one operator in one tier repository,
/// newest first.  A chart absent from the index yields the empty list,
/// not an error; a version entry that does not parse fails the call.
pub fn get_versions_from_repo(operator: &String, index: &Catalog<Vec<String>>) -> (r: Result<
    Vec<String>,
    VersionParseError,
>)
    ensures
        match r {
            Ok(out) => tier_versions_ok(out@, index@, operator@),
            Err(e) => tier_has_unparseable(index@, operator@) && tier_first_unparseable(
                e,
                index@,
                operator@,
            ),
        },
{
    let chart = concat_str(operator.as_str(), "-operator");
    match index.get(&chart) {
        Option::None => Ok(Vec::new()),
        Option::Some(entries) => sort_versions_newest_first(entries),
    }
}

/// One operator's versions across the three tiers.
#[derive(Debug)]
pub struct OperatorVersions {
    pub operator: String,
    pub stable_versions: Vec<String>,
    pub test_versions: Vec<String>,
    pub dev_versions: Vec<String>,
}

/// The three-tier version listing of one operator, each tier resolved
/// independently; the first tier that holds an unparseable version fails
/// the call, leaving the others untouched.
pub fn describe_operator(
    operator: &String,
    stable: &Catalog<Vec<String>>,
    test: &Catalog<Vec<String>>,
    dev: &Catalog<Vec<String>>,
) -> (r: Result<OperatorVersions, VersionParseError>)
    ensures
        match r {
            Ok(o) => {
                &&& o.operator@ == operator@
                &&& tier_versions_ok(o.stable_versions@, stable@, operator@)
                &&& tier_versions_ok(o.test_versions@, test@, operator@)
                &&& tier_versions_ok(o.dev_versions@, dev@, operator@)
            },
            Err(e) => {
                if tier_has_unparseable(stable@, operator@) {
                    tier_first_unparseable(e, stable@, operator@)
                } else if tier_has_unparseable(test@, operator@) {
                    tier_first_unparseable(e, test@, operator@)
                } else {
                    tier_has_unparseable(dev@, operator@) && tier_first_unparseable(
                        e,
                        dev@,
                        operator@,
                    )
                }
            },
        },
{
    let stable_versions = match get_versions_from_repo(operator, stable) {
        Ok(v) => v,
        Err(e) => {
            return Err(e);
        },
    };
    let test_versions = match get_versions_from_repo(operator, test) {
        Ok(v) => v,
        Err(e) => {
            return Err(e);
        },
    };
    let dev_versions = match get_versions_from_repo(operator, dev) {
        Ok(v) => v,
        Err(e) => {
            return Err(e);
        },
    };
    Ok(OperatorVersions {
        operator: operator.clone(),
        stable_versions,
        test_versions,
        dev_versions,
    })
}

/// The three-tier version listing of every known operator, in listing
/// order; any operator's failing tier fails the whole listing.
pub fn list_operators(
    stable: &Catalog<Vec<String>>,
    test: &Catalog<Vec<String>>,
    dev: &Catalog<Vec<String>>,
) -> (r: Result<Vec<OperatorVersions>, VersionParseError>)
    ensures
        match r {
            Ok(list) => {
                &&& list@.len() == spec_known_operators().len()
                &&& forall|i: int|
                    0 <= i < list@.len() ==> {
                        let o = #[trigger] list@[i];
                        &&& o.operator@ == spec_known_operators()[i]
                        &&& tier_versions_ok(o.stable_versions@, stable@, o.operator@)
                        &&& tier_versions_ok(o.test_versions@, test@, o.operator@)
                        &&& tier_versions_ok(o.dev_versions@, dev@, o.operator@)
                    }
            },
            Err(_) => exists|i: int|
                0 <= i < spec_known_operators().len() && {
                    let op = #[trigger] spec_known_operators()[i];
                    tier_has_unparseable(stable@, op) || tier_has_unparseable(test@, op)
                        || tier_has_unparseable(dev@, op)
                },
        },
{
    let ops = known_operators();
    let n = ops.len();
    let mut list: Vec<OperatorVersions> = Vec::new();
    let mut i: usize = 0;
    while i < n
        invariant
            i <= n,
            n == spec_known_operators().len(),
            views_of(ops@) =~= spec_known_operators(),
            list@.len() == i,
            forall|j: int|
                0 <= j < i ==> {
                    let o = #[trigger] list@[j];
                    &&& o.operator@ == spec_known_operators()[j]
                    &&& tier_versions_ok(o.stable_versions@, stable@, o.operator@)
                    &&& tier_versions_ok(o.test_versions@, test@, o.operator@)
                    &&& tier_versions_ok(o.dev_versions@, dev@, o.operator@)
                },
        decreases n - i,
    {
        match describe_operator(&ops[i], stable, test, dev) {
            Ok(o) => {
                list.push(o);
            },
            Err(e) => {
                proof {
                    assert(spec_known_operators()[i as int] == ops@[i as int]@);
                }
                return Err(e);
            },
        }
        i += 1;
    }
    Ok(list)
}

/// One deployed release as the deployment tool reports it.
#[derive(Debug)]
pub struct InstalledRelease {
    pub name: String,
    pub version: String,
    pub namespace: String,
    pub status: String,
    pub last_updated: String,
}

/// What the installed-operator listing shows of one deployed release.
#[derive(Debug)]
pub struct InstalledOperatorEntry {
    pub version: String,
    pub namespace: String,
    pub status: String,
    pub last_updated: String,
}

/// Whether `n` is the release name of a known operator.
pub open spec fn is_operator_release(n: Seq<char>) -> bool {
    exists|i: int|
        0 <= i < spec_known_operators().len() && #[trigger] spec_known_operators()[i]
            + "-operator"@ == n
}

/// The known operator whose release name `n` is.
pub open spec fn operator_of_release(n: Seq<char>) -> Seq<char> {
    choose|o: Seq<char>| spec_known_operators().contains(o) && o + "-operator"@ == n
}

/// The listing entry a deployed release shrinks to.
pub open spec fn spec_entry_of(rel: InstalledRelease) -> InstalledOperatorEntry {
    InstalledOperatorEntry {
        version: rel.version,
        namespace: rel.namespace,
        status: rel.status,
        last_updated: rel.last_updated,
    }
}

/// The installed-operator catalog built from the deployed releases in
/// report order: releases of known operators keyed by operator name,
/// everything else dropped.
pub open spec fn spec_installed(
    acc: CatalogSeq<InstalledOperatorEntry>,
    rels: Seq<InstalledRelease>,
) -> CatalogSeq<InstalledOperatorEntry>
    decreases rels.len(),
{
    if rels.len() == 0 {
        acc
    } else {
        let r0 = rels[0];
        let acc2 = if is_operator_release(r0.name@) {
            crate::catalog::spec_insert(acc, operator_of_release(r0.name@), spec_entry_of(r0))
        } else {
            acc
        };
        spec_installed(acc2, rels.drop_first())
    }
}

/// Equal sequences stay equal when the same suffix is taken off.
proof fn lemma_suffix_cancel(a: Seq<char>, b: Seq<char>, suf: Seq<char>)
    requires
        a + suf == b + suf,
    ensures
        a == b,
{
    assert((a + suf).len() == a.len() + suf.len());
    assert((b + suf).len() == b.len() + suf.len());
    assert(a.len() == b.len());
    assert(a =~= (a + suf).subrange(0, a.len() as int));
    assert(b =~= (b + suf).subrange(0, b.len() as int));
}

/// Keep only the deployed releases of known operators, keyed by operator
/// name, in report order; a repeated operator keeps its first position
/// and takes the later content.
pub fn list_installed_operators(releases: Vec<InstalledRelease>) -> (r: Catalog<
    InstalledOperatorEntry,
>)
    ensures
        r.wf(),
        r@ =~= spec_installed(Seq::<(Seq<char>, InstalledOperatorEntry)>::empty(), releases@),
{
    let ghost all = releases@;
    let mut result: Catalog<InstalledOperatorEntry> = Catalog::new();
    let mut rest = releases;
    while rest.len() > 0
        invariant
            result.wf(),
            spec_installed(result@, rest@) =~= spec_installed(
                Seq::<(Seq<char>, InstalledOperatorEntry)>::empty(),
                all,
            ),
        decreases rest@.len(),
    {
        let ghost rest_prev = rest@;
        let rel = rest.remove(0);
        proof {
            assert(rest@ =~= rest_prev.drop_first());
            assert(rest_prev[0] == rel);
        }
        let ops = known_operators();
        let n_ops = ops.len();
        let mut k: usize = 0;
        let mut found: Option<usize> = Option::None;
        while k < n_ops
            invariant
                k <= n_ops,
                n_ops == spec_known_operators().len(),
                views_of(ops@) =~= spec_known_operators(),
                match found {
                    Option::Some(f) => f < n_ops && spec_known_operators()[f as int]
                        + "-operator"@ == rel.name@,
                    Option::None => forall|j: int|
                        0 <= j < k ==> #[trigger] spec_known_operators()[j] + "-operator"@
                            != rel.name@,
                },
            decreases n_ops - k,
        {
            if found.is_none() {
                let chart = concat_str(ops[k].as_str(), "-operator");
                if str_eq(chart.as_str(), rel.name.as_str()) {
                    found = Option::Some(k);
                }
            }
            k += 1;
        }
        match found {
            Option::Some(f) => {
                let key = ops[f].clone();
                let entry = InstalledOperatorEntry {
                    version: rel.version,
                    namespace: rel.namespace,
                    status: rel.status,
                    last_updated: rel.last_updated,
                };
                proof {
                    assert(spec_known_operators()[f as int] + "-operator"@ == rel.name@);
                    assert(is_operator_release(rel.name@));
                    let o = operator_of_release(rel.name@);
                    assert(spec_known_operators().contains(spec_known_operators()[f as int]));
                    assert(spec_known_operators().contains(o) && o + "-operator"@ == rel.name@);
                    lemma_suffix_cancel(o, spec_known_operators()[f as int], "-operator"@);
                    assert(key@ == operator_of_release(rel.name@));
                    assert(entry == spec_entry_of(rel));
                }
                result.insert(key, entry);
            },
            Option::None => {
                proof {
                    if is_operator_release(rel.name@) {
                        let w = choose|w: int|
                            0 <= w < spec_known_operators().len()
                                && spec_known_operators()[w] + "-operator"@ == rel.name@;
                        assert(spec_known_operators()[w] + "-operator"@ != rel.name@);
                    }
                }
            },
        }
    }
    proof {
        assert(rest@.len() == 0);
    }
    result
}

} // verus!
