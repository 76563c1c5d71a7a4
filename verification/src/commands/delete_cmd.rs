//! `zot collections --rm`: what a deletion takes with it, and how it is authorised.
use crate::api::models::ZoteroItem;
use crate::collections::lookup::find_node;
use crate::collections::lookup::node_with_key;
use crate::collections::lookup::CollectionRef;
use crate::collections::lookup::RefView;
use crate::collections::pairing::node_keys;
use crate::collections::tree::node_views;
use crate::collections::tree::CollectionNode;
use crate::collections::tree::NodeView;
use crate::commands::collections_cmd::connector_only;
use crate::commands::collections_cmd::count_filed;
use crate::commands::collections_cmd::filed_in;
use crate::commands::collections_cmd::filed_only_in;
use crate::commands::collections_cmd::filing;
use crate::commands::collections_cmd::is_library_id;
use crate::commands::collections_cmd::keys_of_nodes;
use crate::commands::collections_cmd::lemma_subtree;
use crate::commands::collections_cmd::ref_views;
use crate::commands::collections_cmd::subtree;
use crate::commands::collections_cmd::subtree_of;
use crate::failure::text_result;
use crate::failure::Failure;
use crate::json::json_tree;
use crate::json::member;
use crate::json::member_natural;
use crate::json::JsonTree;
use crate::output::push_indent;
use crate::output::spaces;
use crate::output::CollectionDeletedOutput;
use crate::output::CollectionRemovedOutput;
use crate::text::chars_of;
use crate::text::concat3;
use crate::text::concat4;
use crate::text::concat5;
use crate::text::decimal;
use crate::text::opt_text;
use crate::text::push_decimal;
use crate::text::same_chars;
use crate::text::same_text;
use crate::text::texts;
use crate::text::trim;
use crate::text::trimmed;
use vstd::prelude::*;

verus! {

/// How many collections a deletion may cover before it is refused instead of checked against the
/// server: the check costs one request per collection.
pub const RECONCILE_MAX_NODES: usize = 50;

/// Everything one `--rm` destroys, worked out before anything is written.
///
/// Built from the local library alone, so it is a snapshot of what Zotero has synced down.
#[derive(Debug)]
pub struct DeleteScope {
    pub key: String,
    pub name: String,
    /// Key of the parent; `None` for a top-level collection.
    pub parent: Option<String>,
    /// The named collection first, then its descendants in preorder.
    pub removed: Vec<CollectionRemovedOutput>,
    /// Distinct top-level items filed anywhere in `removed`.
    pub item_count: usize,
    /// Of those, the ones filed in no collection outside `removed`, which the delete therefore
    /// leaves unfiled.
    pub unfiled_count: usize,
}

impl DeleteScope {
    /// The named collection is there, and what follows it lies below it.
    pub open spec fn wf(&self) -> bool {
        &&& self.removed@.len() > 0
        &&& forall|i: int| 1 <= i < self.removed@.len() ==> (#[trigger] self.removed@[i]).depth > 0
    }

    /// How many collections go with the named one.
    pub fn descendant_count(&self) -> (r: usize)
        requires
            self.removed@.len() > 0,
        ensures
            r == self.removed@.len() - 1,
    {
        self.removed.len() - 1
    }
}

/// How the delete is authorised.
#[derive(Debug, PartialEq, Eq)]
pub enum Gate {
    /// `--force` was passed: no prompt.
    Forced,
    /// Prompt, and go ahead only on exactly this answer.
    Prompt(String),
}

/// How many items are filed in some collections and nowhere else.
pub open spec fn count_unfiled(items: Seq<ZoteroItem>, keys: Seq<Seq<char>>) -> nat
    decreases items.len(),
{
    if items.len() == 0 {
        0
    } else {
        count_unfiled(items.drop_last(), keys) + if filed_in(items.last(), keys) && filed_only_in(
            items.last(),
            keys,
        ) {
            1nat
        } else {
            0nat
        }
    }
}

/// A removed collection: a node, its depth counted from the deleted one.
pub open spec fn is_removed(row: CollectionRemovedOutput, node: NodeView, base: int) -> bool {
    row.key@ == node.key && row.name@ == node.name && row.depth as int == node.depth - base
}

/// What a scope over a subtree holds.
pub open spec fn is_scope(s: DeleteScope, doomed: Seq<NodeView>, items: Seq<ZoteroItem>) -> bool {
    &&& s.key@ == doomed[0].key
    &&& s.name@ == doomed[0].name
    &&& opt_text(s.parent) == doomed[0].parent
    &&& s.removed@.len() == doomed.len()
    &&& forall|i: int|
        0 <= i < doomed.len() ==> is_removed(#[trigger] s.removed@[i], doomed[i], doomed[0].depth)
    &&& s.item_count == count_filed(items, node_keys(doomed))
    &&& s.unfiled_count == count_unfiled(items, node_keys(doomed))
}

/// The key a resolved `--rm` points at, or the error for what cannot be deleted.
pub open spec fn doomed_key(r: RefView) -> Result<Seq<char>, Seq<char>> {
    match (r.key, r.connector_id) {
        (Some(key), _) => Ok(key),
        (None, Some(id)) => if id.len() > 0 && id[0] == 'L' {
            Err(
                r.name + " ("@ + id
                    + ") is a library root, not a collection, and cannot be deleted."@,
            )
        } else {
            Err(
                "Collection \""@ + r.name + "\" ("@ + id
                    + ") is only known to the connector, most likely because it lives in a group library, which this command cannot write to."@,
            )
        },
        (None, None) => Err(
            "Collection \""@ + r.name + "\" resolved to no key, so there is nothing to delete."@,
        ),
    }
}

/// The key a resolved `--rm` points at.
///
/// There is no "top level" fallback: a reference the read API cannot address has to fail, because
/// guessing here deletes something.
pub fn delete_target(reference: &CollectionRef) -> (r: Result<String, Failure>)
    ensures
        text_result(r) == doomed_key(reference@),
{
    if let Some(key) = &reference.key {
        return Ok(key.clone());
    }
    let name = reference.name.as_str();
    match &reference.connector_id {
        Some(id) => {
            if is_library_id(id.as_str()) {
                return Err(
                    Failure {
                        message: concat4(
                            name,
                            " (",
                            id.as_str(),
                            ") is a library root, not a collection, and cannot be deleted.",
                        ),
                    },
                );
            }
            Err(Failure { message: connector_only(name, id.as_str()) })
        },
        None => Err(
            Failure {
                message: concat3(
                    "Collection \"",
                    name,
                    "\" resolved to no key, so there is nothing to delete.",
                ),
            },
        ),
    }
}

/// Works out what deleting `key` would destroy.
///
/// `item_count` counts distinct items, since an item filed in both a parent and a child is one
/// item; `unfiled_count` is the subset filed nowhere else, which is the only number that describes
/// real loss of structure.
pub fn delete_scope(nodes: &[CollectionNode], items: &[ZoteroItem], key: &str) -> (r: Result<
    DeleteScope,
    Failure,
>)
    ensures
        match r {
            Ok(scope) => {
                &&& scope.wf()
                &&& node_with_key(node_views(nodes@), key@, 0) is Some
                &&& is_scope(scope, subtree_of(node_views(nodes@), key@), items@)
            },
            Err(e) => {
                &&& node_with_key(node_views(nodes@), key@, 0) is None
                &&& e@ == "Collection "@ + key@
                    + " is not in the local library, so there is nothing to delete."@
            },
        },
{
    let ghost views = node_views(nodes@);
    let doomed = subtree(nodes, key);
    let ghost seen = ref_views(doomed@);
    proof {
        lemma_subtree(views, key@);
        assert(seen.len() == doomed@.len());
    }
    if doomed.len() == 0 {
        return Err(
            Failure {
                message: concat3(
                    "Collection ",
                    key,
                    " is not in the local library, so there is nothing to delete.",
                ),
            },
        );
    }
    let keys = keys_of_nodes(&doomed);
    let mut item_count: usize = 0;
    let mut unfiled_count: usize = 0;
    let mut i: usize = 0;
    while i < items.len()
        invariant
            i <= items.len(),
            item_count <= i,
            unfiled_count <= i,
            item_count == count_filed(items@.take(i as int), texts(keys@)),
            unfiled_count == count_unfiled(items@.take(i as int), texts(keys@)),
        decreases items.len() - i,
    {
        assert(items@.take(i as int + 1).drop_last() =~= items@.take(i as int));
        let (any, all) = filing(&items[i], &keys);
        if any {
            item_count += 1;
            if all {
                unfiled_count += 1;
            }
        }
        i += 1;
    }
    assert(items@.take(items@.len() as int) =~= items@);
    let base: usize = doomed[0].depth;
    assert(seen[0] == doomed@[0]@);
    let mut removed: Vec<CollectionRemovedOutput> = Vec::new();
    let mut j: usize = 0;
    while j < doomed.len()
        invariant
            j <= doomed.len(),
            doomed.len() > 0,
            seen == ref_views(doomed@),
            seen == subtree_of(views, key@),
            seen[0] == doomed@[0]@,
            base == doomed@[0].depth,
            forall|k: int| 1 <= k < seen.len() ==> (#[trigger] seen[k]).depth > seen[0].depth,
            removed.len() == j,
            forall|k: int|
                0 <= k < j ==> is_removed(#[trigger] removed@[k], seen[k], seen[0].depth),
        decreases doomed.len() - j,
    {
        let n = doomed[j];
        assert(seen[j as int] == n@);
        removed.push(
            CollectionRemovedOutput {
                key: n.key.clone(),
                name: n.name.clone(),
                depth: n.depth - base,
            },
        );
        j += 1;
    }
    let root = doomed[0];
    let scope = DeleteScope {
        key: root.key.clone(),
        name: root.name.clone(),
        parent: root.parent.clone(),
        removed,
        item_count,
        unfiled_count,
    };
    proof {
        assert forall|i: int| 1 <= i < scope.removed@.len() implies (
        #[trigger] scope.removed@[i]).depth > 0 by {
            assert(is_removed(scope.removed@[i], seen[i], seen[0].depth));
            assert(seen[i].depth > seen[0].depth);
        }
    }
    Ok(scope)
}

/// The deletions the scope needs, in order.
///
/// Exactly one, the named collection, whatever the subtree looks like: deleting a collection on
/// api.zotero.org cascades to everything below it.
pub fn delete_requests(scope: &DeleteScope) -> (r: Vec<&str>)
    ensures
        r@.len() == 1,
        r@[0]@ == scope.key@,
{
    let mut out: Vec<&str> = Vec::new();
    out.push(scope.key.as_str());
    out
}

/// The error for a scope too large to check against the server.
pub open spec fn scope_too_large(scope: DeleteScope) -> Seq<char> {
    "\""@ + scope.name@ + "\" ["@ + scope.key@ + "] covers "@ + decimal(scope.removed@.len())
        + " collections, more than the 50 this command will check against api.zotero.org one request at a time.\n  Delete the subtrees separately, or pass --force once you have synced Zotero and checked in its UI what the subtree holds."@
}

/// Whether a scope can be checked against the server, and the line to show before a check that
/// takes a while.
pub fn reconcile_start(scope: &DeleteScope) -> (r: Result<Option<String>, Failure>)
    ensures
        match r {
            Ok(notice) => scope.removed@.len() <= RECONCILE_MAX_NODES && opt_text(notice) == if scope.removed@.len()
                > 5 {
                Some(
                    "Checking "@ + decimal(scope.removed@.len())
                        + " collection(s) against api.zotero.org before asking..."@,
                )
            } else {
                None
            },
            Err(e) => scope.removed@.len() > RECONCILE_MAX_NODES && e@ == scope_too_large(*scope),
        },
{
    let n: usize = scope.removed.len();
    if n > RECONCILE_MAX_NODES {
        let mut message = concat5("\"", scope.name.as_str(), "\" [", scope.key.as_str(), "] covers ");
        push_decimal(&mut message, n as u64);
        message.push_str(
            " collections, more than the 50 this command will check against api.zotero.org one request at a time.\n  Delete the subtrees separately, or pass --force once you have synced Zotero and checked in its UI what the subtree holds.",
        );
        return Err(Failure { message });
    }
    if n > 5 {
        let mut notice = "Checking ".to_string();
        push_decimal(&mut notice, n as u64);
        notice.push_str(" collection(s) against api.zotero.org before asking...");
        Ok(Some(notice))
    } else {
        Ok(None)
    }
}

/// Whether one collection's local child count matches the server's.
///
/// Any disagreement is disqualifying, in either direction: more on the server means children the
/// summary never listed, fewer means the local tree is describing something the server no longer
/// has, and neither is a state to delete from.
pub fn child_counts_agree(local_children: usize, server_num_collections: u64) -> (r: bool)
    ensures
        r == (local_children as int == server_num_collections as int),
{
    server_num_collections == local_children as u64
}

/// How many children the local tree shows under a key.
pub open spec fn local_children(nodes: Seq<NodeView>, key: Seq<char>) -> nat {
    match node_with_key(nodes, key, 0) {
        Some(i) => nodes[i].children.len(),
        None => 0,
    }
}

/// How many children the server reports for a collection.
pub open spec fn server_children(answer: JsonTree) -> Option<u64> {
    match answer.member("meta"@) {
        Some(meta) => meta.member_natural("numCollections"@),
        None => None,
    }
}

/// The verdict of the server's answer on one doomed collection.
pub open spec fn reconciled(
    nodes: Seq<NodeView>,
    key: Seq<char>,
    name: Seq<char>,
    answer: JsonTree,
) -> Result<(), Seq<char>> {
    match server_children(answer) {
        Some(n) => if n as int == local_children(nodes, key) {
            Ok(())
        } else {
            Err(
                "api.zotero.org has "@ + decimal(n as nat) + " subcollection(s) directly under \""@
                    + name + "\" ["@ + key
                    + "], but the local library this summary is built from has "@ + decimal(
                    local_children(nodes, key),
                )
                    + ", so the delete would cascade into collection(s) it cannot show you. Nothing was deleted.\n  Sync Zotero so the local library catches up, then re-run `zot collections --rm`."@,
            )
        },
        None => Err("No meta.numCollections on collection "@ + key + " from the web API"@),
    }
}

/// Checks one collection of the scope against what api.zotero.org says of it.
///
/// The summary is built from the local library, the deletion cascades on the server, and the two
/// part company whenever a subcollection was created somewhere else and has not been synced down
/// yet. Such a child is absent from the summary and destroyed all the same.
pub fn reconcile_one(
    nodes: &[CollectionNode],
    doomed: &CollectionRemovedOutput,
    answer: &serde_json::Value,
) -> (r: Result<(), Failure>)
    ensures
        match r {
            Ok(_) => reconciled(node_views(nodes@), doomed.key@, doomed.name@, json_tree(*answer))
                is Ok,
            Err(e) => reconciled(node_views(nodes@), doomed.key@, doomed.name@, json_tree(*answer))
                == Err::<(), _>(e@),
        },
{
    let local: usize = match find_node(nodes, &doomed.key) {
        Some(i) => {
            assert(node_views(nodes@)[i as int] == nodes@[i as int]@);
            nodes[i].children.len()
        },
        None => 0,
    };
    let reported = match member(answer, "meta") {
        Some(meta) => member_natural(meta, "numCollections"),
        None => None,
    };
    let server: u64 = match reported {
        Some(n) => n,
        None => {
            return Err(
                Failure {
                    message: concat3(
                        "No meta.numCollections on collection ",
                        doomed.key.as_str(),
                        " from the web API",
                    ),
                },
            );
        },
    };
    if child_counts_agree(local, server) {
        return Ok(());
    }
    let mut message = "api.zotero.org has ".to_string();
    push_decimal(&mut message, server);
    message.push_str(" subcollection(s) directly under \"");
    message.push_str(doomed.name.as_str());
    message.push_str("\" [");
    message.push_str(doomed.key.as_str());
    message.push_str("], but the local library this summary is built from has ");
    push_decimal(&mut message, local as u64);
    message.push_str(
        ", so the delete would cascade into collection(s) it cannot show you. Nothing was deleted.\n  Sync Zotero so the local library catches up, then re-run `zot collections --rm`.",
    );
    Err(Failure { message })
}

/// The error when nobody can be asked.
pub open spec fn nobody_to_ask(scope: DeleteScope) -> Seq<char> {
    "Refusing to delete \""@ + scope.name@ + "\" ["@ + scope.key@
        + "] without confirmation: stdin is not a terminal, so there is nobody to ask.\n  This would permanently remove "@
        + decimal(scope.removed@.len()) + " collection(s) and unfile "@ + decimal(
        scope.unfiled_count as nat,
    )
        + " item(s), and Zotero has no trash for collections.\n  Re-run it interactively, or pass --force if you have already checked what it removes."@
}

/// Decides how a delete is authorised, or refuses when it cannot be.
///
/// The expected answer grows with the blast radius: a leaf takes `yes`, while a collection with
/// descendants takes its own name, typed out. The failure this guards against is a user who
/// under-estimates what hangs below the name they passed, and re-typing the name is what makes
/// them read the list above the prompt.
pub fn delete_gate(scope: &DeleteScope, force: bool, stdin_is_tty: bool) -> (r: Result<
    Gate,
    Failure,
>)
    requires
        scope.removed@.len() > 0,
    ensures
        match r {
            Ok(Gate::Forced) => force,
            Ok(Gate::Prompt(expected)) => !force && stdin_is_tty && expected@
                == if scope.removed@.len() == 1 {
                "yes"@
            } else {
                scope.name@
            },
            Err(e) => !force && !stdin_is_tty && e@ == nobody_to_ask(*scope),
        },
{
    if force {
        return Ok(Gate::Forced);
    }
    if !stdin_is_tty {
        let mut message = concat5(
            "Refusing to delete \"",
            scope.name.as_str(),
            "\" [",
            scope.key.as_str(),
            "] without confirmation: stdin is not a terminal, so there is nobody to ask.\n  This would permanently remove ",
        );
        push_decimal(&mut message, scope.removed.len() as u64);
        message.push_str(" collection(s) and unfile ");
        push_decimal(&mut message, scope.unfiled_count as u64);
        message.push_str(
            " item(s), and Zotero has no trash for collections.\n  Re-run it interactively, or pass --force if you have already checked what it removes.",
        );
        return Err(Failure { message });
    }
    if scope.descendant_count() == 0 {
        Ok(Gate::Prompt("yes".to_string()))
    } else {
        Ok(Gate::Prompt(scope.name.clone()))
    }
}

/// Whether a typed answer authorises the delete.
///
/// Only surrounding whitespace is forgiven. Case is not: `YES` and `y` are near-misses of `yes`,
/// and a near-miss of an irreversible delete has to abort. `expected` is compared as it stands, so
/// a collection whose name has leading or trailing whitespace can never be confirmed at the
/// prompt, which fails in the direction that keeps the collection.
pub fn confirmed(answer: &str, expected: &str) -> (r: bool)
    ensures
        r == (trimmed(answer@) == expected@),
{
    let chars = chars_of(answer);
    let want = chars_of(expected);
    same_chars(trim(chars.as_slice()), want.as_slice())
}

/// The line asking for `expected`.
pub fn prompt_line(expected: &str) -> (r: String)
    ensures
        r@ == if expected@ == "yes"@ {
            "Type yes to delete it permanently, anything else aborts: "@
        } else {
            "Type the collection's name (\""@ + expected@
                + "\") to confirm, anything else aborts: "@
        },
{
    if same_text(expected, "yes") {
        "Type yes to delete it permanently, anything else aborts: ".to_string()
    } else {
        concat3(
            "Type the collection's name (\"",
            expected,
            "\") to confirm, anything else aborts: ",
        )
    }
}

/// The descendants, indented under their parents.
pub open spec fn descendant_rows(o: Seq<char>, rows: Seq<CollectionRemovedOutput>, n: int) -> Seq<
    char,
>
    decreases n,
{
    if n <= 1 {
        o
    } else {
        let o = descendant_rows(o, rows, n - 1);
        let r = rows[n - 1];
        o + "    "@ + spaces(2 * (r.depth - 1) as nat) + r.name@ + " ["@ + r.key@ + "]\n"@
    }
}

/// What the user reads before confirming.
pub open spec fn summary_of(scope: DeleteScope) -> Seq<char> {
    let o = "About to permanently delete collection \""@ + scope.name@ + "\" ["@ + scope.key@
        + "].\n"@;
    let o = if scope.removed@.len() <= 1 {
        o + "  It has no subcollections.\n"@
    } else {
        let o = o + "  It also takes "@ + decimal((scope.removed@.len() - 1) as nat)
            + " descendant collection(s) with it:\n"@;
        descendant_rows(o, scope.removed@, scope.removed@.len() as int)
    };
    let o = if scope.item_count == 0 {
        o + "  No items are filed there.\n"@
    } else {
        o + "  "@ + decimal(scope.item_count as nat) + " item(s) are filed there; "@ + decimal(
            scope.unfiled_count as nat,
        ) + " of them would end up in no collection at all.\n"@
    };
    o
        + "  The items themselves are NOT deleted, only unfiled; they stay in the library.\n  Zotero has no trash for collections: unlike `zot rm`, this cannot be undone.\n"@
}

/// What the user reads before confirming: the whole blast radius, in one block.
pub fn delete_summary(scope: &DeleteScope) -> (r: String)
    requires
        scope.wf(),
    ensures
        r@ == summary_of(*scope),
{
    let mut out = concat5(
        "About to permanently delete collection \"",
        scope.name.as_str(),
        "\" [",
        scope.key.as_str(),
        "].\n",
    );
    if scope.descendant_count() == 0 {
        out.push_str("  It has no subcollections.\n");
    } else {
        out.push_str("  It also takes ");
        push_decimal(&mut out, scope.descendant_count() as u64);
        out.push_str(" descendant collection(s) with it:\n");
        let ghost head = out@;
        let mut i: usize = 1;
        while i < scope.removed.len()
            invariant
                1 <= i <= scope.removed.len(),
                scope.wf(),
                out@ == descendant_rows(head, scope.removed@, i as int),
            decreases scope.removed.len() - i,
        {
            let r = &scope.removed[i];
            assert(scope.removed@[i as int].depth > 0);
            out.push_str("    ");
            push_indent(&mut out, r.depth - 1);
            out.push_str(r.name.as_str());
            out.push_str(" [");
            out.push_str(r.key.as_str());
            out.push_str("]\n");
            i += 1;
        }
    }
    if scope.item_count == 0 {
        out.push_str("  No items are filed there.\n");
    } else {
        out.push_str("  ");
        push_decimal(&mut out, scope.item_count as u64);
        out.push_str(" item(s) are filed there; ");
        push_decimal(&mut out, scope.unfiled_count as u64);
        out.push_str(" of them would end up in no collection at all.\n");
    }
    out.push_str(
        "  The items themselves are NOT deleted, only unfiled; they stay in the library.\n  Zotero has no trash for collections: unlike `zot rm`, this cannot be undone.\n",
    );
    out
}

/// The version of a collection, from the server's answer.
pub fn collection_version(answer: &serde_json::Value) -> (r: Result<u64, Failure>)
    ensures
        match r {
            Ok(v) => json_tree(*answer).member_natural("version"@) == Some(v),
            Err(e) => json_tree(*answer).member_natural("version"@) is None && e@
                == "No version on collection"@,
        },
{
    match member_natural(answer, "version") {
        Some(v) => Ok(v),
        None => Err(Failure { message: "No version on collection".to_string() }),
    }
}

/// The error when the collection was written to between the read of its version and the deletion:
/// a rename, a move, an item filed into it from another device.
pub fn delete_conflict(target: &str, version: u64) -> (r: Failure)
    ensures
        r@ == "["@ + target@
            + "] changed on api.zotero.org between the read and the write (version "@ + decimal(
            version as nat,
        )
            + "), so nothing was deleted.\n  Sync Zotero so the local library catches up with that change, then re-run `zot collections --rm` to see what it contains now."@,
{
    let mut message = concat3(
        "[",
        target,
        "] changed on api.zotero.org between the read and the write (version ",
    );
    push_decimal(&mut message, version);
    message.push_str(
        "), so nothing was deleted.\n  Sync Zotero so the local library catches up with that change, then re-run `zot collections --rm` to see what it contains now.",
    );
    Failure { message }
}

/// What is answered once the scope has been deleted.
pub fn deleted_output(scope: DeleteScope, synced_local: bool) -> (r: CollectionDeletedOutput)
    requires
        scope.removed@.len() > 0,
    ensures
        r.key@ == scope.key@,
        r.name@ == scope.name@,
        opt_text(r.parent) == opt_text(scope.parent),
        r.removed@ == scope.removed@,
        r.descendant_count == scope.removed@.len() - 1,
        r.item_count == scope.item_count,
        r.unfiled_count == scope.unfiled_count,
        r.synced_local == synced_local,
        r.note@
            == "Permanent: Zotero has no trash for collections, so unlike `zot rm` this cannot be undone."@,
{
    let descendant_count: usize = scope.descendant_count();
    CollectionDeletedOutput {
        key: scope.key,
        name: scope.name,
        parent: scope.parent,
        removed: scope.removed,
        descendant_count,
        item_count: scope.item_count,
        unfiled_count: scope.unfiled_count,
        synced_local,
        note:
            "Permanent: Zotero has no trash for collections, so unlike `zot rm` this cannot be undone.".to_string(),
    }
}

} // verus!
