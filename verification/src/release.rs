//! Releases: named bundles of operators with pinned versions, their
//! catalog, and the expansion of a release into install or uninstall
//! intents under include/exclude product filters.

use vstd::prelude::*;

use crate::arguments::OutputType;
use crate::catalog::{
    aggregate, contains_key, first_index_of, spec_aggregate, Catalog, SourceLoad,
};
use crate::operator::{spec_tier_for, version_view, HelmInstallIntent, Operator, uninstall_operators, is_known_operator};
use crate::text::concat_str;
use crate::text::str_eq;
use crate::version::views_of;

verus! {

/// The command-line surface for releases.
pub enum CliCommandRelease {
    /// List all the available releases.
    List { output: OutputType },
    /// Show details of a specific release.
    Describe { release: String, output: OutputType },
    /// Install a specific release.
    Install {
        release: String,
        include_products: Vec<String>,
        exclude_products: Vec<String>,
        kind_cluster: bool,
        kind_cluster_name: String,
    },
    /// Uninstall a release.
    Uninstall { release: String },
}

/// One product of a release: the operator version pinned for it.
#[derive(Debug)]
pub struct ReleaseProduct {
    pub operator_version: String,
}

/// One release: a dated, described bundle of products.
#[derive(Debug)]
pub struct Release {
    pub release_date: String,
    pub description: String,
    pub products: Catalog<ReleaseProduct>,
}

/// The merged release catalog out of every declared source, in declared
/// order; failed sources contribute nothing.
pub fn get_releases(loads: Vec<SourceLoad<Release>>) -> (r: Catalog<Release>)
    ensures
        r.wf(),
        r@ =~= spec_aggregate(Seq::<(Seq<char>, Release)>::empty(), loads@),
{
    aggregate(loads)
}

/// A release name that the merged catalog does not hold.  Resolution of
/// a release is terminal: the caller is expected to report the message
/// and end the process.
#[derive(Debug)]
pub struct ReleaseNotFound {
    pub message: String,
}

/// The wording of the terminal release-not-found report.
pub open spec fn release_not_found_message(name: Seq<char>) -> Seq<char> {
    "Release "@ + name
        + " not found. Use `stackablectl release list` to list the available releases."@
}

/// Look a release up by name.  A missing name is the fatal path: the
/// returned message is meant to be logged before the process ends.
pub fn get_release<'a>(releases: &'a Catalog<Release>, name: &String) -> (r: Result<
    &'a Release,
    ReleaseNotFound,
>)
    ensures
        r is Ok <==> contains_key(releases@, name@),
        r is Ok ==> *r->Ok_0 == releases@[first_index_of(releases@, name@)].1,
        r is Err ==> r->Err_0.message@ == release_not_found_message(name@),
{
    match releases.get(name) {
        Option::Some(rel) => Ok(rel),
        Option::None => {
            let msg = concat_str(
                concat_str("Release ", name.as_str()).as_str(),
                " not found. Use `stackablectl release list` to list the available releases.",
            );
            Err(ReleaseNotFound { message: msg })
        },
    }
}

/// Whether a list of names holds `name`.
pub fn names_contain(list: &Vec<String>, name: &String) -> (r: bool)
    ensures
        r == views_of(list@).contains(name@),
{
    let n = list.len();
    let mut i: usize = 0;
    while i < n
        invariant
            i <= n,
            n == list@.len(),
            forall|j: int| 0 <= j < i ==> views_of(list@)[j] != name@,
        decreases n - i,
    {
        if str_eq(list[i].as_str(), name.as_str()) {
            proof {
                assert(views_of(list@)[i as int] == name@);
            }
            return true;
        }
        i += 1;
    }
    proof {
        if views_of(list@).contains(name@) {
            let w = choose|w: int|
                0 <= w < views_of(list@).len() && views_of(list@)[w] == name@;
            assert(views_of(list@)[w] != name@);
        }
    }
    false
}

/// The product filter of a release install: a product is taken iff the
/// whitelist is empty or names it, and the blacklist does not name
/// it.  When both lists name it, exclusion wins.
pub open spec fn spec_product_selected(
    name: Seq<char>,
    included: Seq<String>,
    excluded: Seq<String>,
) -> bool {
    (included.len() == 0 || views_of(included).contains(name)) && !views_of(excluded).contains(
        name,
    )
}

/// The products a release install acts on, in release order.
pub open spec fn spec_selected_products(
    products: Seq<(Seq<char>, ReleaseProduct)>,
    included: Seq<String>,
    excluded: Seq<String>,
) -> Seq<(Seq<char>, ReleaseProduct)>
    decreases products.len(),
{
    if products.len() == 0 {
        Seq::empty()
    } else {
        let rest = spec_selected_products(products.drop_first(), included, excluded);
        if spec_product_selected(products[0].0, included, excluded) {
            seq![products[0]] + rest
        } else {
            rest
        }
    }
}

/// Why a release install plan could not be made.
#[derive(Debug)]
pub enum ReleaseInstallError {
    /// The release name is not in the catalog: the fatal path.
    NotFound(ReleaseNotFound),
    /// A selected product is no known operator; the message is the one
    /// operator validation gives.
    UnknownOperator(String),
}

/// The install intent of one selected product.
pub open spec fn spec_product_intent(intent: HelmInstallIntent, p: (Seq<char>, ReleaseProduct)) -> bool {
    &&& intent.release_name@ == p.0 + "-operator"@
    &&& intent.chart_name@ == p.0 + "-operator"@
    &&& intent.repo == spec_tier_for(Option::Some(p.1.operator_version@))
    &&& version_view(intent.version) == Option::Some(p.1.operator_version@)
}

/// The install plan of a release: one intent per product that passes the
/// include/exclude filter, in release order, each at its pinned version.
/// A missing release is the fatal path; a selected product outside the
/// known-operator set fails the plan with the validation message of the
/// first such product.
pub fn install_release(
    releases: &Catalog<Release>,
    release_name: &String,
    include_products: &Vec<String>,
    exclude_products: &Vec<String>,
) -> (r: Result<Vec<HelmInstallIntent>, ReleaseInstallError>)
    ensures
        ({
            let found = contains_key(releases@, release_name@);
            let rel = releases@[first_index_of(releases@, release_name@)].1;
            let sel = spec_selected_products(
                rel.products@,
                include_products@,
                exclude_products@,
            );
            match r {
                Ok(plan) => {
                    &&& found
                    &&& plan@.len() == sel.len()
                    &&& forall|i: int|
                        0 <= i < sel.len() ==> is_known_operator(#[trigger] sel[i].0)
                    &&& forall|i: int|
                        0 <= i < sel.len() ==> spec_product_intent(#[trigger] plan@[i], sel[i])
                },
                Err(ReleaseInstallError::NotFound(e)) => {
                    &&& !found
                    &&& e.message@ == release_not_found_message(release_name@)
                },
                Err(ReleaseInstallError::UnknownOperator(m)) => {
                    &&& found
                    &&& exists|i: int|
                        {
                            &&& 0 <= i < sel.len()
                            &&& !is_known_operator(#[trigger] sel[i].0)
                            &&& forall|j: int| 0 <= j < i ==> is_known_operator(#[trigger] sel[j].0)
                            &&& m@ == "The operator "@ + sel[i].0
                                + " does not exist or stackablectl is too old to know the operator"@
                        }
                },
            }
        }),
{
    let release = match get_release(releases, release_name) {
        Ok(rel) => rel,
        Err(e) => {
            return Err(ReleaseInstallError::NotFound(e));
        },
    };
    let ghost products = release.products@;
    let ghost sel = spec_selected_products(products, include_products@, exclude_products@);
    let ghost mut taken: Seq<(Seq<char>, ReleaseProduct)> = Seq::empty();
    let n = release.products.len();
    let mut plan: Vec<HelmInstallIntent> = Vec::new();
    let mut i: usize = 0;
    proof {
        assert(products.skip(0) =~= products);
        assert(taken + spec_selected_products(products.skip(0), include_products@,
            exclude_products@) =~= sel);
    }
    while i < n
        invariant
            i <= n,
            n == products.len(),
            products == release.products@,
            contains_key(releases@, release_name@),
            products == releases@[first_index_of(releases@, release_name@)].1.products@,
            sel == spec_selected_products(products, include_products@, exclude_products@),
            taken + spec_selected_products(
                products.skip(i as int),
                include_products@,
                exclude_products@,
            ) =~= sel,
            plan@.len() == taken.len(),
            forall|j: int| 0 <= j < taken.len() ==> is_known_operator(#[trigger] taken[j].0),
            forall|j: int|
                0 <= j < plan@.len() ==> spec_product_intent(#[trigger] plan@[j], taken[j]),
        decreases n - i,
    {
        let ghost suffix_sel = spec_selected_products(
            products.skip(i as int),
            include_products@,
            exclude_products@,
        );
        let product_name = release.products.key_at(i);
        let product = release.products.value_at(i);
        let included = include_products.len() == 0 || names_contain(
            include_products,
            product_name,
        );
        let excluded = names_contain(exclude_products, product_name);
        proof {
            assert(products.skip(i as int)[0] == products[i as int]);
            assert(products.skip(i as int).drop_first() =~= products.skip(i + 1));
        }
        if included && !excluded {
            proof {
                assert(spec_product_selected(
                    products[i as int].0,
                    include_products@,
                    exclude_products@,
                ));
                assert(suffix_sel == seq![products[i as int]] + spec_selected_products(
                    products.skip(i + 1),
                    include_products@,
                    exclude_products@,
                ));
                assert(sel[taken.len() as int] == products[i as int]);
            }
            match Operator::new(product_name.clone(), Some(product.operator_version.clone())) {
                Ok(op) => {
                    let intent = op.install();
                    plan.push(intent);
                    proof {
                        taken = taken.push(products[i as int]);
                        assert(taken + spec_selected_products(
                            products.skip(i + 1),
                            include_products@,
                            exclude_products@,
                        ) =~= sel);
                    }
                },
                Err(m) => {
                    proof {
                        let k = taken.len() as int;
                        assert(0 <= k < sel.len());
                        assert(sel[k].0 == product_name@);
                        assert(!is_known_operator(sel[k].0));
                        assert forall|j: int| 0 <= j < k implies is_known_operator(
                            #[trigger] sel[j].0,
                        ) by {
                            assert(sel[j] == taken[j]);
                        }
                        assert(m@ == "The operator "@ + sel[k].0
                            + " does not exist or stackablectl is too old to know the operator"@);
                        let rel2 = releases@[first_index_of(releases@, release_name@)].1;
                        let sel2 = spec_selected_products(
                            rel2.products@,
                            include_products@,
                            exclude_products@,
                        );
                        assert(rel2.products@ == products);
                        assert(sel2 == sel);
                        assert(exists|w: int|
                            {
                                &&& 0 <= w < sel2.len()
                                &&& !is_known_operator(#[trigger] sel2[w].0)
                                &&& forall|j: int|
                                    0 <= j < w ==> is_known_operator(#[trigger] sel2[j].0)
                                &&& m@ == "The operator "@ + sel2[w].0
                                    + " does not exist or stackablectl is too old to know the operator"@
                            }) by {
                            assert({
                                &&& 0 <= k < sel2.len()
                                &&& !is_known_operator(sel2[k].0)
                                &&& forall|j: int|
                                    0 <= j < k ==> is_known_operator(#[trigger] sel2[j].0)
                                &&& m@ == "The operator "@ + sel2[k].0
                                    + " does not exist or stackablectl is too old to know the operator"@
                            });
                        }
                    }
                    return Err(ReleaseInstallError::UnknownOperator(m));
                },
            }
        } else {
            proof {
                assert(!spec_product_selected(
                    products[i as int].0,
                    include_products@,
                    exclude_products@,
                ));
                assert(suffix_sel == spec_selected_products(
                    products.skip(i + 1),
                    include_products@,
                    exclude_products@,
                ));
            }
        }
        i += 1;
    }
    proof {
        assert(products.skip(n as int) =~= Seq::<(Seq<char>, ReleaseProduct)>::empty());
        assert(taken =~= sel);
    }
    Ok(plan)
}

/// The uninstall plan of a release: one `{product}-operator` release
/// name per product, unfiltered, in release order.  A missing release is
/// the fatal path.
pub fn uninstall_release(releases: &Catalog<Release>, release_name: &String) -> (r: Result<
    Vec<String>,
    ReleaseNotFound,
>)
    ensures
        r is Ok <==> contains_key(releases@, release_name@),
        r is Ok ==> ({
            let rel = releases@[first_index_of(releases@, release_name@)].1;
            let names = r->Ok_0;
            &&& names@.len() == rel.products@.len()
            &&& forall|i: int|
                0 <= i < names@.len() ==> (#[trigger] names@[i])@ == rel.products@[i].0
                    + "-operator"@
        }),
        r is Err ==> r->Err_0.message@ == release_not_found_message(release_name@),
{
    let release = match get_release(releases, release_name) {
        Ok(rel) => rel,
        Err(e) => {
            return Err(e);
        },
    };
    let n = release.products.len();
    let mut product_names: Vec<String> = Vec::new();
    let mut i: usize = 0;
    while i < n
        invariant
            i <= n,
            n == release.products@.len(),
            product_names@.len() == i,
            forall|j: int|
                0 <= j < i ==> (#[trigger] product_names@[j])@ == release.products@[j].0,
        decreases n - i,
    {
        product_names.push(release.products.key_at(i).clone());
        i += 1;
    }
    Ok(uninstall_operators(&product_names))
}

} // verus!
