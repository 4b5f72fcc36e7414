//! License expressions: what they require, and whether the accepted licenses
//! satisfy them.

use crate::error::{Failure, LicenseError};
use crate::order::{ascending, in_order, in_order_ascends, in_order_keys, item_key, item_keys,
    keys_of, own_key, place, placing_commutes, Key, Keyed};
use vstd::prelude::*;

verus! {

/// A license of an expression.
#[derive(Debug)]
pub enum LicenseItem {
    /// A license of the SPDX list, by its short identifier and its full name.
    Spdx { name: String, full_name: String },
    /// A license outside of the list.
    Other { doc_ref: Option<String>, lic_ref: String },
}

/// A requirement of an expression.
#[derive(Debug)]
pub struct LicenseReq {
    pub license: LicenseItem,
}

/// The contents of a [`LicenseItem`].
pub enum Item {
    Spdx { name: Seq<char>, full_name: Seq<char> },
    Other { doc_ref: Option<Seq<char>>, lic_ref: Seq<char> },
}

impl View for LicenseReq {
    type V = Item;

    open spec fn view(&self) -> Item {
        match self.license {
            LicenseItem::Spdx { name, full_name } => Item::Spdx {
                name: name@,
                full_name: full_name@,
            },
            LicenseItem::Other { doc_ref, lic_ref } => Item::Other {
                doc_ref: match doc_ref {
                    Some(doc) => Some(doc@),
                    None => None,
                },
                lic_ref: lic_ref@,
            },
        }
    }
}

/// The contents of requirements.
pub open spec fn items_of(reqs: Seq<LicenseReq>) -> Seq<Item> {
    reqs.map_values(|r: LicenseReq| r@)
}

/// A part of an expression in postfix order.
pub enum ExprNode {
    And,
    Or,
    Req(Item),
}

/// The SPDX license identifiers that are accepted for third-party dependencies.
pub open spec fn accepted(id: Seq<char>) -> bool {
    ||| id == "MIT"@
    ||| id == "Apache-2.0"@
    ||| id == "Apache-2.0 WITH LLVM-exception"@
    ||| id == "MPL-2.0"@
    ||| id == "Zlib"@
    ||| id == "BSD-2-Clause"@
    ||| id == "BSD-3-Clause"@
    ||| id == "CC0-1.0"@
    ||| id == "BSL-1.0"@
    ||| id == "ISC"@
    ||| id == "Unicode-DFS-2016"@
    ||| id == "Unicode-3.0"@
    ||| id == "OpenSSL"@
    ||| id == "Unlicense"@
    ||| id == "WTFPL"@
    ||| id == "LicenseRef-Slint-Software-3.0"@
}

/// The SPDX string of a license, e.g. `MIT` or `LicenseRef-Slint-Software-3.0`.
pub open spec fn item_string(item: Item) -> Seq<char> {
    match item {
        Item::Spdx { name, .. } => name,
        Item::Other { doc_ref: Some(doc), lic_ref } => "DocumentRef-"@ + doc + ":LicenseRef-"@
            + lic_ref,
        Item::Other { doc_ref: None, lic_ref } => "LicenseRef-"@ + lic_ref,
    }
}

/// The full name of a license, or its SPDX string where the list has none.
pub open spec fn item_full_name(item: Item) -> Seq<char> {
    match item {
        Item::Spdx { full_name, .. } => full_name,
        Item::Other { .. } => item_string(item),
    }
}

/// The truth values on the stack after the postfix `nodes`, a requirement being true
/// where its license is accepted; `None` where an operator lacks an operand.
pub open spec fn outcomes(nodes: Seq<ExprNode>) -> Option<Seq<bool>>
    decreases nodes.len(),
{
    if nodes.len() == 0 {
        Some(Seq::empty())
    } else {
        match (outcomes(nodes.drop_last()), nodes.last()) {
            (None, _) => None,
            (Some(stack), ExprNode::Req(item)) => Some(stack.push(accepted(item_string(item)))),
            (Some(stack), ExprNode::And) => if stack.len() < 2 {
                None
            } else {
                Some(stack.take(stack.len() - 2).push(stack[stack.len() - 2] && stack.last()))
            },
            (Some(stack), ExprNode::Or) => if stack.len() < 2 {
                None
            } else {
                Some(stack.take(stack.len() - 2).push(stack[stack.len() - 2] || stack.last()))
            },
        }
    }
}

/// Whether `nodes` are an expression: every operator has its operands and a value is
/// left.
pub open spec fn evaluable(nodes: Seq<ExprNode>) -> bool {
    outcomes(nodes) is Some && outcomes(nodes)->0.len() > 0
}

/// Whether the accepted licenses satisfy the expression `nodes`.
pub open spec fn satisfied(nodes: Seq<ExprNode>) -> bool {
    evaluable(nodes) && outcomes(nodes)->0.last()
}

/// The licenses that `nodes` require, in order.
pub open spec fn required(nodes: Seq<ExprNode>) -> Seq<Item>
    decreases nodes.len(),
{
    if nodes.len() == 0 {
        Seq::empty()
    } else {
        match nodes.last() {
            ExprNode::Req(item) => required(nodes.drop_last()).push(item),
            _ => required(nodes.drop_last()),
        }
    }
}

/// The identifier and the full name of each accepted license among `items`.
pub open spec fn accepted_pairs(items: Seq<Item>) -> Seq<Key>
    decreases items.len(),
{
    if items.len() == 0 {
        Seq::empty()
    } else {
        let rest = accepted_pairs(items.drop_last());
        let item = items.last();
        if accepted(item_string(item)) {
            rest.push((item_string(item), item_full_name(item)))
        } else {
            rest
        }
    }
}

/// The accepted licenses among `items`, each pair of identifier and full name once,
/// in order.
pub open spec fn listed_pairs(items: Seq<Item>) -> Seq<Key> {
    in_order(accepted_pairs(items), own_key())
}

/// Whether `items` mention no more than one license.
pub open spec fn single_license(items: Seq<Item>) -> bool {
    forall|i: int, j: int|
        0 <= i < items.len() && 0 <= j < items.len() ==> item_string(#[trigger] items[i])
            == item_string(#[trigger] items[j])
}

/// A parsed license expression of the `spdx` crate.
#[verifier::external_type_specification]
#[verifier::external_body]
pub struct ExExpression(spdx::Expression);

/// The nodes that a parsed expression holds, in postfix order.
pub uninterp spec fn nodes_of(expr: spdx::Expression) -> Seq<ExprNode>;

/// What lax parsing makes of a text: the nodes of the expression, or the words of the
/// error.
pub uninterp spec fn lax_parse(text: Seq<char>) -> Result<Seq<ExprNode>, Seq<char>>;

/// `spdx::Expression::parse_mode` with `ParseMode::LAX`: the outcome is a function of
/// the text, and a parsed expression can be evaluated. An error is handed on as what
/// its `Display` writes.
#[verifier::external_body]
fn parse_lax(text: &str) -> (r: Result<spdx::Expression, String>)
    ensures
        match r {
            Ok(expr) => lax_parse(text@) == Ok::<Seq<ExprNode>, Seq<char>>(nodes_of(expr))
                && evaluable(nodes_of(expr)),
            Err(reason) => lax_parse(text@) == Err::<Seq<ExprNode>, Seq<char>>(reason@),
        },
{
    spdx::Expression::parse_mode(text, spdx::ParseMode::LAX).map_err(|e| e.to_string())
}

/// `spdx::Expression::evaluate`, with [`accepts`] as the judge of each requirement:
/// it works off the nodes with a stack, as [`outcomes`] says, and returns the value on
/// its top. It panics where an operator lacks an operand or no value is left.
#[verifier::external_body]
fn evaluate(expr: &spdx::Expression) -> (r: bool)
    requires
        evaluable(nodes_of(*expr)),
    ensures
        r == satisfied(nodes_of(*expr)),
{
    expr.evaluate(|req| {
        let license = match &req.license {
            spdx::LicenseItem::Spdx { id, .. } => LicenseItem::Spdx {
                name: id.name.to_string(),
                full_name: id.full_name.to_string(),
            },
            spdx::LicenseItem::Other { doc_ref, lic_ref } => LicenseItem::Other {
                doc_ref: doc_ref.clone(),
                lic_ref: lic_ref.clone(),
            },
        };
        accepts(&LicenseReq { license })
    })
}

/// `spdx::Expression::requirements`: the requirements among the nodes, in their order,
/// without the operators.
#[verifier::external_body]
fn requirements(expr: &spdx::Expression) -> (r: Vec<LicenseReq>)
    ensures
        items_of(r@) == required(nodes_of(*expr)),
{
    expr.requirements().map(|r| {
        let license = match &r.req.license {
            spdx::LicenseItem::Spdx { id, .. } => LicenseItem::Spdx {
                name: id.name.to_string(),
                full_name: id.full_name.to_string(),
            },
            spdx::LicenseItem::Other { doc_ref, lic_ref } => LicenseItem::Other {
                doc_ref: doc_ref.clone(),
                lic_ref: lic_ref.clone(),
            },
        };
        LicenseReq { license }
    }).collect()
}

/// Whether the license `id` is accepted for third-party dependencies.
pub fn is_accepted(id: &str) -> (r: bool)
    ensures
        r == accepted(id@),
{
    id.eq("MIT") || id.eq("Apache-2.0") || id.eq("Apache-2.0 WITH LLVM-exception") || id.eq(
        "MPL-2.0",
    ) || id.eq("Zlib") || id.eq("BSD-2-Clause") || id.eq("BSD-3-Clause") || id.eq("CC0-1.0")
        || id.eq("BSL-1.0") || id.eq("ISC") || id.eq("Unicode-DFS-2016") || id.eq("Unicode-3.0")
        || id.eq("OpenSSL") || id.eq("Unlicense") || id.eq("WTFPL") || id.eq(
        "LicenseRef-Slint-Software-3.0",
    )
}

/// The canonical SPDX string for a requirement, e.g. `MIT` or
/// `LicenseRef-Slint-Software-3.0`.
pub fn license_string(req: &LicenseReq) -> (r: String)
    ensures
        r@ == item_string(req@),
{
    match &req.license {
        LicenseItem::Spdx { name, .. } => name.clone(),
        LicenseItem::Other { doc_ref, lic_ref } => {
            let mut out = String::new();
            match doc_ref {
                Some(doc) => {
                    out.append("DocumentRef-");
                    out.append(doc.as_str());
                    out.append(":LicenseRef-");
                },
                None => {
                    out.append("LicenseRef-");
                },
            }
            out.append(lic_ref.as_str());
            out
        },
    }
}

/// The full name of the license of a requirement.
pub fn license_full_name(req: &LicenseReq) -> (r: String)
    ensures
        r@ == item_full_name(req@),
{
    match &req.license {
        LicenseItem::Spdx { full_name, .. } => full_name.clone(),
        LicenseItem::Other { .. } => license_string(req),
    }
}

/// Whether the license of a requirement is accepted.
pub fn accepts(req: &LicenseReq) -> (r: bool)
    ensures
        r == accepted(item_string(req@)),
{
    is_accepted(license_string(req).as_str())
}

/// The accepted licenses among `reqs`: a crate is listed under every accepted license
/// id mentioned in its expression. For `A OR B` where both are accepted, it appears
/// under both; for `A AND B` likewise.
pub fn listed_licenses(reqs: &Vec<LicenseReq>) -> (r: Vec<(String, String)>)
    ensures
        item_keys(r@) == listed_pairs(items_of(reqs@)),
{
    let mut out: Vec<(String, String)> = Vec::new();
    let ghost items = items_of(reqs@);
    let mut i: usize = 0;
    assert(item_keys(out@) == listed_pairs(items.take(0)));
    while i < reqs.len()
        invariant
            i <= reqs@.len(),
            items == items_of(reqs@),
            item_keys(out@) == listed_pairs(items.take(i as int)),
        decreases reqs@.len() - i,
    {
        let ghost before = items.take(i as int);
        assert(items.take(i + 1).drop_last() == before);
        assert(items.take(i + 1).last() == reqs@[i as int]@);
        proof {
            in_order_ascends(accepted_pairs(before), own_key());
            assert(keys_of(listed_pairs(before), own_key()) == listed_pairs(before));
        }
        if accepts(&reqs[i]) {
            let pair = (license_string(&reqs[i]), license_full_name(&reqs[i]));
            proof {
                placing_commutes(
                    out@,
                    item_key::<(String, String)>(),
                    pair,
                    item_key::<(String, String)>(),
                    own_key(),
                );
                let pairs = accepted_pairs(before);
                assert(pairs.push(pair.key()).drop_last() == pairs);
            }
            place(&mut out, pair);
        }
        i += 1;
    }
    assert(items.take(reqs@.len() as int) == items);
    out
}

/// Whether `reqs` mention no more than one license.
pub fn is_single_license(reqs: &Vec<LicenseReq>) -> (r: bool)
    ensures
        r == single_license(items_of(reqs@)),
{
    let ghost items = items_of(reqs@);
    if reqs.len() == 0 {
        return true;
    }
    let first = license_string(&reqs[0]);
    assert(first@ == item_string(items[0]));
    let mut i: usize = 1;
    while i < reqs.len()
        invariant
            0 < i <= reqs@.len(),
            items == items_of(reqs@),
            first@ == item_string(items[0]),
            forall|j: int| 0 <= j < i ==> item_string(#[trigger] items[j]) == first@,
        decreases reqs@.len() - i,
    {
        let here = license_string(&reqs[i]);
        assert(here@ == item_string(items[i as int]));
        if here != first {
            return false;
        }
        i += 1;
    }
    true
}

/// What an expression grants: the licenses under which a crate is listed, and whether
/// it mentions one license alone.
pub struct Grant {
    pub licenses: Vec<(String, String)>,
    pub single: bool,
}

/// The outcome for a crate whose expression was evaluated.
pub open spec fn granted(
    name: Seq<char>,
    version: Seq<char>,
    license: Seq<char>,
    holds: bool,
    items: Seq<Item>,
) -> Result<(Seq<Key>, bool), Failure> {
    if holds {
        Ok((listed_pairs(items), single_license(items)))
    } else {
        Err(Failure::NotAccepted { license, name, version })
    }
}

/// The outcome for a crate whose expression was parsed.
pub open spec fn licensed(
    name: Seq<char>,
    version: Seq<char>,
    license: Seq<char>,
    parsed: Result<Seq<ExprNode>, Seq<char>>,
) -> Result<(Seq<Key>, bool), Failure> {
    match parsed {
        Ok(nodes) => granted(name, version, license, satisfied(nodes), required(nodes)),
        Err(reason) => Err(Failure::CannotParse { license, name, version, reason }),
    }
}

/// Whether `r` is the outcome `expected`.
pub open spec fn is_outcome(
    r: Result<Grant, LicenseError>,
    expected: Result<(Seq<Key>, bool), Failure>,
) -> bool {
    match r {
        Ok(grant) => expected == Ok::<(Seq<Key>, bool), Failure>(
            (item_keys(grant.licenses@), grant.single),
        ),
        Err(error) => expected == Err::<(Seq<Key>, bool), Failure>(error@),
    }
}

/// Judges the crate `name` `version` by the requirements of its expression `license`
/// and by whether that expression `holds` for the accepted licenses.
pub fn grant(name: &str, version: &str, license: &str, holds: bool, reqs: &Vec<LicenseReq>) -> (r:
    Result<Grant, LicenseError>)
    ensures
        is_outcome(r, granted(name@, version@, license@, holds, items_of(reqs@))),
{
    if holds {
        Ok(Grant { licenses: listed_licenses(reqs), single: is_single_license(reqs) })
    } else {
        Err(
            LicenseError::NotAccepted {
                license: license.to_owned(),
                name: name.to_owned(),
                version: version.to_owned(),
            },
        )
    }
}

/// Judges the crate `name` `version` by its license expression. Lax parsing accepts the
/// deprecated `/` OR-separator and imprecise identifiers (e.g. `apache2`) still found
/// in older crates.
pub fn judge(name: &str, version: &str, license: &str) -> (r: Result<Grant, LicenseError>)
    ensures
        is_outcome(r, licensed(name@, version@, license@, lax_parse(license@))),
{
    match parse_lax(license) {
        Ok(expr) => grant(name, version, license, evaluate(&expr), &requirements(&expr)),
        Err(reason) => Err(
            LicenseError::CannotParse {
                license: license.to_owned(),
                name: name.to_owned(),
                version: version.to_owned(),
                reason,
            },
        ),
    }
}

/// A license pair is listed exactly where it is that of an accepted requirement.
pub proof fn listed_exactly_accepted(items: Seq<Item>, pair: Key)
    ensures
        listed_pairs(items).contains(pair) <==> exists|i: int|
            0 <= i < items.len() && accepted(item_string(#[trigger] items[i])) && pair == (
                item_string(items[i]),
                item_full_name(items[i]),
            ),
{
    in_order_keys(accepted_pairs(items), own_key(), pair);
    assert(keys_of(listed_pairs(items), own_key()) == listed_pairs(items));
    assert(keys_of(accepted_pairs(items), own_key()) == accepted_pairs(items));
    accepted_pairs_are_of_items(items, pair);
}

proof fn accepted_pairs_are_of_items(items: Seq<Item>, pair: Key)
    ensures
        accepted_pairs(items).contains(pair) <==> exists|i: int|
            0 <= i < items.len() && accepted(item_string(#[trigger] items[i])) && pair == (
                item_string(items[i]),
                item_full_name(items[i]),
            ),
    decreases items.len(),
{
    if items.len() > 0 {
        let rest = items.drop_last();
        let last = items.len() - 1;
        let before = accepted_pairs(rest);
        let out = accepted_pairs(items);
        accepted_pairs_are_of_items(rest, pair);
        if out.contains(pair) {
            let n = choose|n: int| 0 <= n < out.len() && out[n] == pair;
            if n < before.len() {
                assert(before[n] == pair);
                let i = choose|i: int|
                    0 <= i < rest.len() && accepted(item_string(#[trigger] rest[i])) && pair == (
                        item_string(rest[i]),
                        item_full_name(rest[i]),
                    );
                assert(items[i] == rest[i]);
            } else {
                assert(items[last] == items.last());
            }
        }
        if exists|i: int|
            0 <= i < items.len() && accepted(item_string(#[trigger] items[i])) && pair == (
                item_string(items[i]),
                item_full_name(items[i]),
            ) {
            let i = choose|i: int|
                0 <= i < items.len() && accepted(item_string(#[trigger] items[i])) && pair == (
                    item_string(items[i]),
                    item_full_name(items[i]),
                );
            if i < last {
                assert(rest[i] == items[i]);
                let n = choose|n: int| 0 <= n < before.len() && before[n] == pair;
                assert(out[n] == pair);
            } else {
                assert(out[before.len() as int] == pair);
            }
        }
    }
}

/// The listed licenses ascend: none is listed twice.
pub proof fn listed_pairs_ascend(items: Seq<Item>)
    ensures
        ascending(listed_pairs(items)),
{
    in_order_ascends(accepted_pairs(items), own_key());
    assert(keys_of(listed_pairs(items), own_key()) == listed_pairs(items));
}

/// Where a value on the stack is true, an accepted license is required.
proof fn true_value_needs_accepted(nodes: Seq<ExprNode>, i: int)
    requires
        outcomes(nodes) is Some,
        0 <= i < outcomes(nodes)->0.len(),
        outcomes(nodes)->0[i],
    ensures
        exists|j: int|
            0 <= j < required(nodes).len() && accepted(item_string(#[trigger] required(nodes)[j])),
    decreases nodes.len(),
{
    let rest = nodes.drop_last();
    let stack = outcomes(rest)->0;
    let before = required(rest);
    let after = required(nodes);
    let n = stack.len() as int;
    let older = match nodes.last() {
        ExprNode::Req(_) => i < n,
        _ => true,
    };
    if older {
        let k = match nodes.last() {
            ExprNode::Req(_) => i,
            _ => if i < n - 2 {
                i
            } else if stack[n - 1] {
                n - 1
            } else {
                n - 2
            },
        };
        true_value_needs_accepted(rest, k);
        let j = choose|j: int|
            0 <= j < before.len() && accepted(item_string(#[trigger] before[j]));
        assert(after[j] == before[j]);
    } else {
        assert(after[before.len() as int] == nodes.last()->Req_0);
    }
}

/// An expression that the accepted licenses satisfy mentions one of them.
pub proof fn satisfied_expression_mentions_accepted(nodes: Seq<ExprNode>)
    requires
        satisfied(nodes),
    ensures
        exists|j: int|
            0 <= j < required(nodes).len() && accepted(item_string(#[trigger] required(nodes)[j])),
{
    true_value_needs_accepted(nodes, outcomes(nodes)->0.len() - 1);
}

} // verus!
