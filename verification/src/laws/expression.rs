//! What holds of license expressions and of the accepted licenses.

use crate::error::{Failure, LicenseError};
use crate::expression::{accepted, evaluable, is_outcome, item_full_name, item_string, items_of,
    licensed, listed_exactly_accepted, listed_pairs_ascend, outcomes, required, satisfied, ExprNode,
    Grant, Item, LicenseItem, LicenseReq};
use crate::order::{text_before, Key};
use vstd::prelude::*;

verus! {

/// The accepted licenses are these sixteen: each of them is accepted, and nothing else is.
pub proof fn sixteen_licenses_are_accepted(id: Seq<char>)
    ensures
        ({
            let table = seq![
                "MIT"@,
                "Apache-2.0"@,
                "Apache-2.0 WITH LLVM-exception"@,
                "MPL-2.0"@,
                "Zlib"@,
                "BSD-2-Clause"@,
                "BSD-3-Clause"@,
                "CC0-1.0"@,
                "BSL-1.0"@,
                "ISC"@,
                "Unicode-DFS-2016"@,
                "Unicode-3.0"@,
                "OpenSSL"@,
                "Unlicense"@,
                "WTFPL"@,
                "LicenseRef-Slint-Software-3.0"@,
            ];
            &&& table.len() == 16
            &&& accepted(id) <==> exists|i: int| 0 <= i < 16 && #[trigger] table[i] == id
        }),
{
    let table = accepted_table();
    if accepted(id) {
        assert(table[0] == id || table[1] == id || table[2] == id || table[3] == id || table[4] == id
            || table[5] == id || table[6] == id || table[7] == id || table[8] == id || table[9] == id
            || table[10] == id || table[11] == id || table[12] == id || table[13] == id || table[14]
            == id || table[15] == id);
    }
}

spec fn accepted_table() -> Seq<Seq<char>> {
    seq![
        "MIT"@,
        "Apache-2.0"@,
        "Apache-2.0 WITH LLVM-exception"@,
        "MPL-2.0"@,
        "Zlib"@,
        "BSD-2-Clause"@,
        "BSD-3-Clause"@,
        "CC0-1.0"@,
        "BSL-1.0"@,
        "ISC"@,
        "Unicode-DFS-2016"@,
        "Unicode-3.0"@,
        "OpenSSL"@,
        "Unlicense"@,
        "WTFPL"@,
        "LicenseRef-Slint-Software-3.0"@,
    ]
}

/// Among different licenses no more than sixteen are accepted.
pub proof fn no_more_than_sixteen_are_accepted(ids: Seq<Seq<char>>)
    requires
        ids.no_duplicates(),
        forall|i: int| 0 <= i < ids.len() ==> accepted(#[trigger] ids[i]),
    ensures
        ids.len() <= 16,
{
    let table = accepted_table();
    assert forall|id: Seq<char>| ids.to_set().contains(id) implies table.to_set().contains(id) by {
        let i = choose|i: int| 0 <= i < ids.len() && ids[i] == id;
        sixteen_licenses_are_accepted(id);
        let n = choose|n: int| 0 <= n < 16 && #[trigger] table[n] == id;
        assert(table.contains(id));
    }
    ids.unique_seq_to_set();
    table.lemma_cardinality_of_set();
    vstd::seq_lib::seq_to_set_is_finite(table);
    vstd::set_lib::lemma_len_subset(ids.to_set(), table.to_set());
}

/// No license of the GPL family is accepted: none with `GPL` in its identifier.
pub proof fn no_gpl_is_accepted(id: Seq<char>, i: int)
    requires
        accepted(id),
        0 <= i < id.len() - 2,
    ensures
        !(id[i] == 'G' && id[i + 1] == 'P' && id[i + 2] == 'L'),
{
    reveal_strlit("MIT");
    reveal_strlit("Apache-2.0");
    reveal_strlit("Apache-2.0 WITH LLVM-exception");
    reveal_strlit("MPL-2.0");
    reveal_strlit("Zlib");
    reveal_strlit("BSD-2-Clause");
    reveal_strlit("BSD-3-Clause");
    reveal_strlit("CC0-1.0");
    reveal_strlit("BSL-1.0");
    reveal_strlit("ISC");
    reveal_strlit("Unicode-DFS-2016");
    reveal_strlit("Unicode-3.0");
    reveal_strlit("OpenSSL");
    reveal_strlit("Unlicense");
    reveal_strlit("WTFPL");
    reveal_strlit("LicenseRef-Slint-Software-3.0");
}

/// An expression as a tree: a license, or two expressions of which both or either must
/// hold.
pub enum Tree {
    License(Item),
    Both(Box<Tree>, Box<Tree>),
    Either(Box<Tree>, Box<Tree>),
}

/// The tree in postfix order.
pub open spec fn postfix(tree: Tree) -> Seq<ExprNode>
    decreases tree,
{
    match tree {
        Tree::License(item) => seq![ExprNode::Req(item)],
        Tree::Both(a, b) => postfix(*a) + postfix(*b) + seq![ExprNode::And],
        Tree::Either(a, b) => postfix(*a) + postfix(*b) + seq![ExprNode::Or],
    }
}

/// Whether the tree holds where exactly the accepted licenses do.
pub open spec fn tree_holds(tree: Tree) -> bool
    decreases tree,
{
    match tree {
        Tree::License(item) => accepted(item_string(item)),
        Tree::Both(a, b) => tree_holds(*a) && tree_holds(*b),
        Tree::Either(a, b) => tree_holds(*a) || tree_holds(*b),
    }
}

/// The licenses at the leaves of the tree, from left to right.
pub open spec fn leaves(tree: Tree) -> Seq<Item>
    decreases tree,
{
    match tree {
        Tree::License(item) => seq![item],
        Tree::Both(a, b) => leaves(*a) + leaves(*b),
        Tree::Either(a, b) => leaves(*a) + leaves(*b),
    }
}

proof fn tree_leaves_its_value(before: Seq<ExprNode>, tree: Tree)
    requires
        outcomes(before) is Some,
    ensures
        outcomes(before + postfix(tree)) == Some(outcomes(before)->0.push(tree_holds(tree))),
    decreases tree,
{
    let stack = outcomes(before)->0;
    let all = before + postfix(tree);
    match tree {
        Tree::License(item) => {
            assert(all.drop_last() == before);
            assert(all.last() == ExprNode::Req(item));
        },
        Tree::Both(a, b) => {
            let one = before + postfix(*a);
            let two = one + postfix(*b);
            tree_leaves_its_value(before, *a);
            tree_leaves_its_value(one, *b);
            assert(all.drop_last() == two);
            let values = outcomes(two)->0;
            assert(values.take(values.len() - 2) == stack);
            assert(all.last() == ExprNode::And);
        },
        Tree::Either(a, b) => {
            let one = before + postfix(*a);
            let two = one + postfix(*b);
            tree_leaves_its_value(before, *a);
            tree_leaves_its_value(one, *b);
            assert(all.drop_last() == two);
            let values = outcomes(two)->0;
            assert(values.take(values.len() - 2) == stack);
            assert(all.last() == ExprNode::Or);
        },
    }
}

proof fn required_adds_up(a: Seq<ExprNode>, b: Seq<ExprNode>)
    ensures
        required(a + b) == required(a) + required(b),
    decreases b.len(),
{
    if b.len() == 0 {
        assert(a + b == a);
        assert(required(a) + required(b) == required(a));
    } else {
        assert((a + b).drop_last() == a + b.drop_last());
        required_adds_up(a, b.drop_last());
        assert(required(a + b) == required(a) + required(b));
    }
}

proof fn tree_requires_its_leaves(tree: Tree)
    ensures
        required(postfix(tree)) == leaves(tree),
    decreases tree,
{
    match tree {
        Tree::License(item) => {
            let nodes = seq![ExprNode::Req(item)];
            assert(nodes.drop_last() == Seq::<ExprNode>::empty());
            assert(nodes.last() == ExprNode::Req(item));
            assert(required(nodes.drop_last()) == Seq::<Item>::empty());
            assert(required(nodes) == Seq::<Item>::empty().push(item));
        },
        Tree::Both(a, b) => {
            tree_requires_its_leaves(*a);
            tree_requires_its_leaves(*b);
            let nodes = postfix(*a) + postfix(*b);
            required_adds_up(postfix(*a), postfix(*b));
            assert(postfix(tree).drop_last() == nodes);
        },
        Tree::Either(a, b) => {
            tree_requires_its_leaves(*a);
            tree_requires_its_leaves(*b);
            let nodes = postfix(*a) + postfix(*b);
            required_adds_up(postfix(*a), postfix(*b));
            assert(postfix(tree).drop_last() == nodes);
        },
    }
}

/// An expression is satisfied as its tree of `AND` and `OR` says, and mentions the licenses
/// at its leaves.
pub proof fn expression_is_judged_as_its_tree(tree: Tree)
    ensures
        evaluable(postfix(tree)),
        satisfied(postfix(tree)) == tree_holds(tree),
        required(postfix(tree)) == leaves(tree),
{
    let none = Seq::<ExprNode>::empty();
    tree_leaves_its_value(none, tree);
    assert(none + postfix(tree) == postfix(tree));
    tree_requires_its_leaves(tree);
}

/// A license of the list is called by its identifier and by its full name.
pub proof fn listed_license_has_both_names(name: Seq<char>, full_name: Seq<char>)
    ensures
        item_string(Item::Spdx { name, full_name }) == name,
        item_full_name(Item::Spdx { name, full_name }) == full_name,
{
}

/// A license outside of the list is called by its references, spelled out.
pub proof fn other_license_is_spelled_out(doc_ref: Seq<char>, lic_ref: Seq<char>)
    ensures
        item_string(Item::Other { doc_ref: None, lic_ref }) == "LicenseRef-"@ + lic_ref,
        item_string(Item::Other { doc_ref: Some(doc_ref), lic_ref }) == "DocumentRef-"@ + doc_ref
            + ":LicenseRef-"@ + lic_ref,
        item_full_name(Item::Other { doc_ref: None, lic_ref }) == "LicenseRef-"@ + lic_ref,
        item_full_name(Item::Other { doc_ref: Some(doc_ref), lic_ref }) == "DocumentRef-"@ + doc_ref
            + ":LicenseRef-"@ + lic_ref,
{
}

/// A requirement is viewed with all the texts of its license.
pub proof fn requirements_keep_their_texts(reqs: Seq<LicenseReq>, i: int)
    requires
        0 <= i < reqs.len(),
    ensures
        items_of(reqs).len() == reqs.len(),
        match (reqs[i].license, items_of(reqs)[i]) {
            (LicenseItem::Spdx { name, full_name }, Item::Spdx { name: n, full_name: f }) => name@
                == n && full_name@ == f,
            (
                LicenseItem::Other { doc_ref, lic_ref },
                Item::Other { doc_ref: d, lic_ref: l },
            ) => lic_ref@ == l && doc_ref is Some == d is Some && (doc_ref is Some ==> doc_ref->0@
                == d->0),
            _ => false,
        },
{
}

/// A crate whose expression cannot be parsed or is not satisfied is refused with what was
/// wrong with which crate.
pub proof fn unsatisfied_crate_is_refused(
    name: Seq<char>,
    version: Seq<char>,
    license: Seq<char>,
    reason: Seq<char>,
    tree: Tree,
)
    ensures
        licensed(name, version, license, Err(reason)) == Err::<(Seq<Key>, bool), Failure>(
            Failure::CannotParse { license, name, version, reason },
        ),
        licensed(name, version, license, Ok(postfix(tree))) is Ok <==> tree_holds(tree),
        !tree_holds(tree) ==> licensed(name, version, license, Ok(postfix(tree))) == Err::<
            (Seq<Key>, bool),
            Failure,
        >(Failure::NotAccepted { license, name, version }),
{
    expression_is_judged_as_its_tree(tree);
}

/// A crate whose expression is satisfied is granted exactly the accepted licenses at the
/// leaves of its expression, in ascending order and each once; and its license counts as
/// the only one where all leaves have one identifier.
pub proof fn satisfied_crate_is_granted_its_accepted_licenses(
    name: Seq<char>,
    version: Seq<char>,
    license: Seq<char>,
    tree: Tree,
    pair: Key,
)
    requires
        tree_holds(tree),
    ensures
        licensed(name, version, license, Ok(postfix(tree))) matches Ok((pairs, single)) && {
            &&& pairs.contains(pair) <==> exists|i: int|
                0 <= i < leaves(tree).len() && item_string(#[trigger] leaves(tree)[i]) == pair.0
                    && item_full_name(leaves(tree)[i]) == pair.1 && accepted(pair.0)
            &&& forall|i: int, j: int|
                0 <= i < j < pairs.len() ==> text_before(
                    (#[trigger] pairs[i]).0,
                    (#[trigger] pairs[j]).0,
                ) || (pairs[i].0 == pairs[j].0 && text_before(pairs[i].1, pairs[j].1))
            &&& single <==> forall|i: int|
                0 <= i < leaves(tree).len() ==> item_string(#[trigger] leaves(tree)[i])
                    == item_string(leaves(tree)[0])
        },
{
    expression_is_judged_as_its_tree(tree);
    listed_exactly_accepted(leaves(tree), pair);
    listed_pairs_ascend(leaves(tree));
    let (pairs, single) = licensed(name, version, license, Ok(postfix(tree)))->Ok_0;
    assert forall|i: int, j: int| 0 <= i < j < pairs.len() implies text_before(
        (#[trigger] pairs[i]).0,
        (#[trigger] pairs[j]).0,
    ) || (pairs[i].0 == pairs[j].0 && text_before(pairs[i].1, pairs[j].1)) by {
        assert(crate::order::key_before(pairs[i], pairs[j]));
    }
    tree_has_a_leaf(tree);
    if single {
        assert forall|i: int| 0 <= i < leaves(tree).len() implies item_string(
            #[trigger] leaves(tree)[i],
        ) == item_string(leaves(tree)[0]) by {}
    }
}

proof fn tree_has_a_leaf(tree: Tree)
    ensures
        leaves(tree).len() > 0,
    decreases tree,
{
    match tree {
        Tree::License(_) => {},
        Tree::Both(a, _) => {
            tree_has_a_leaf(*a);
        },
        Tree::Either(a, _) => {
            tree_has_a_leaf(*a);
        },
    }
}

/// A grant carries the outcome: its licenses with their names, and whether it is a single
/// one; an error carries the failure.
pub proof fn outcome_is_carried(
    r: Result<Grant, LicenseError>,
    expected: Result<(Seq<Key>, bool), Failure>,
)
    requires
        is_outcome(r, expected),
    ensures
        match (r, expected) {
            (Ok(grant), Ok((pairs, single))) => {
                &&& grant.single == single
                &&& grant.licenses@.len() == pairs.len()
                &&& forall|i: int|
                    0 <= i < pairs.len() ==> (#[trigger] grant.licenses@[i]).0@ == pairs[i].0
                        && grant.licenses@[i].1@ == pairs[i].1
            },
            (Err(error), Err(failure)) => error@ == failure,
            _ => false,
        },
{
    if let Ok(grant) = r {
        let keys = crate::order::item_keys(grant.licenses@);
        assert forall|i: int| 0 <= i < grant.licenses@.len() implies (
        #[trigger] grant.licenses@[i]).0@ == keys[i].0 && grant.licenses@[i].1@ == keys[i].1 by {}
    }
}

} // verus!
