//! Properties of the resolution algorithm that hold across operations.

use vstd::prelude::*;

use crate::scope::{
    lemma_chain_ends_at, lemma_replace_keeps_wf, lemma_tombstone_is_sentinel,
    lemma_with_scope_wf, ScopeInfoId, ScopeTable,
};

verus! {

/// Two tables whose scopes on the first `n` positions of `c` hold the same
/// bindings give the same search over those positions.
proof fn lemma_search_same(t: ScopeTable, u: ScopeTable, c: Seq<ScopeInfoId>, d: Seq<ScopeInfoId>, n: int, name: Seq<char>)
    requires
        n <= c.len(),
        n <= d.len(),
        forall|j: int| 0 <= j < n ==> c[j] == d[j],
        forall|j: int| 0 <= j < n ==> t.scope(#[trigger] c[j]).bindings == u.scope(c[j]).bindings,
    ensures
        t.search(c, n, name) == u.search(d, n, name),
    decreases n,
{
    if n > 0 {
        lemma_search_same(t, u, c, d, n - 1, name);
    }
}

/// A lookup right after binding a name at a scope finds that scope, in
/// any table that bind and unbind have shaped.
pub proof fn lemma_lookup_after_bind(t: ScopeTable, s: ScopeInfoId, name: Seq<char>)
    requires
        t.wf(),
        t.contains(s),
    ensures
        t.bind(s, name).lookup(s, name) == Some(s),
{
    lemma_chain_ends_at(t, s);
    let t2 = t.bind(s, name);
    assert(t2.scope(s).bindings[name] == s);
}

/// A scope with no entry of its own for a name resolves it as its parent
/// does: to the owner recorded nearest on the way to the root.
pub proof fn lemma_lookup_falls_to_parent(t: ScopeTable, s: ScopeInfoId, name: Seq<char>)
    requires
        t.wf(),
        t.contains(s),
        !t.is_root(s),
        !t.scope(s).bindings.contains_key(name),
    ensures
        t.lookup(s, name) == t.lookup(t.parent(s), name),
{
    lemma_chain_ends_at(t, s);
    assert(t.scope_wf(ScopeTable::index(s)));
    let c = t.scope(s).chain;
    let p = t.parent(s);
    let pc = t.scope(p).chain;
    assert(c == pc.push(s));
    lemma_search_same(t, t, c, pc, pc.len() as int, name);
}

/// A name that a new child scope does not bind resolves there as it does
/// at the child's parent.
pub proof fn lemma_child_lookup(t: ScopeTable, parent: ScopeInfoId, child: ScopeInfoId, name: Seq<char>)
    requires
        t.wf(),
        t.contains(parent),
        child.raw() == t.next_raw(),
    ensures
        t.with_scope(Some(parent), child).lookup(child, name) == t.lookup(parent, name),
{
    let t2 = t.with_scope(Some(parent), child);
    lemma_with_scope_wf(t, Some(parent), child);
    lemma_chain_ends_at(t, parent);
    assert(t2.scope(child).chain == t.scope(parent).chain.push(child));
    assert(t2.contains(child));
    lemma_lookup_falls_to_parent(t2, child, name);
    let pc = t.scope(parent).chain;
    assert(t.scope_wf(ScopeTable::index(parent)));
    assert forall|j: int| 0 <= j < pc.len() implies t.scope(#[trigger] pc[j]).bindings == t2.scope(
        pc[j],
    ).bindings by {
        assert(t.contains(pc[j]));
    }
    lemma_search_same(t, t2, pc, pc, pc.len() as int, name);
}

/// Unbinding a name below a root hides it from a child created afterwards,
/// whatever the ancestors bind.
pub proof fn lemma_unbind_shadows_child(t: ScopeTable, s: ScopeInfoId, child: ScopeInfoId, name: Seq<char>)
    requires
        t.wf(),
        t.contains(s),
        !t.is_root(s),
        child.raw() == t.next_raw(),
    ensures
        t.unbind(s, name).with_scope(Some(s), child).lookup(child, name) == None::<ScopeInfoId>,
{
    let t1 = t.unbind(s, name);
    let t2 = t1.with_scope(Some(s), child);
    lemma_chain_ends_at(t, s);
    lemma_tombstone_is_sentinel();
    let c = t2.scope(child).chain;
    assert(t1.scope(s).chain == t.scope(s).chain);
    assert(c == t.scope(s).chain.push(child));
    assert(c.last() == child);
    assert(c[c.len() - 2] == s);
    assert(!t2.scope(child).bindings.contains_key(name));
    assert(t2.scope(s) == t1.scope(s));
    assert(t2.scope(s).bindings[name] == ScopeInfoId::tombstone());
    assert(t2.search(c, c.len() - 1, name) == Some(ScopeInfoId::tombstone()));
}

/// At a root, unbinding a name removes it, and binding it again makes it
/// resolve to the root.
pub proof fn lemma_root_unbind_then_bind(t: ScopeTable, r: ScopeInfoId, name: Seq<char>)
    requires
        t.wf(),
        t.contains(r),
        t.is_root(r),
    ensures
        !t.unbind(r, name).scope(r).bindings.contains_key(name),
        t.unbind(r, name).bind(r, name).lookup(r, name) == Some(r),
{
    lemma_replace_keeps_wf(t, r);
    let t1 = t.unbind(r, name);
    assert(t1.wf());
    lemma_lookup_after_bind(t1, r, name);
}

/// Looking a name up twice at a scope gives the same answer both times,
/// and the second lookup changes nothing.
pub proof fn lemma_lookup_twice(t: ScopeTable, s: ScopeInfoId, name: Seq<char>)
    requires
        t.wf(),
        t.contains(s),
    ensures
        t.after_lookup(s, name).lookup(s, name) == t.lookup(s, name),
        t.after_lookup(s, name).after_lookup(s, name) == t.after_lookup(s, name),
{
    lemma_chain_ends_at(t, s);
    lemma_tombstone_is_sentinel();
    let t1 = t.after_lookup(s, name);
    if t.visible_entry(s, name).is_none() && !t.is_root(s) {
        assert(t1.scope(s).bindings[name] == ScopeInfoId::tombstone());
        assert(t1.scope(s).chain == t.scope(s).chain);
        assert(t1.visible_entry(s, name) == Some(ScopeInfoId::tombstone()));
    }
}

/// Where a name resolves to nothing because no scope on the way to the
/// root has an entry for it, the first lookup leaves an entry at the scope
/// itself, so a second lookup answers from there without walking the
/// ancestors (a root has none to walk).
pub proof fn lemma_negative_lookup_cached(t: ScopeTable, s: ScopeInfoId, name: Seq<char>)
    requires
        t.wf(),
        t.contains(s),
        t.visible_entry(s, name) is None,
    ensures
        t.lookup(s, name) is None,
        t.is_root(s) || t.after_lookup(s, name).scope(s).bindings.contains_key(name),
        t.after_lookup(s, name).lookup(s, name) is None,
{
    lemma_lookup_twice(t, s, name);
}

/// Binding a name at a scope after a lookup of it there cached a tombstone
/// makes it resolve to that scope.
pub proof fn lemma_bind_after_negative_lookup(t: ScopeTable, s: ScopeInfoId, name: Seq<char>)
    requires
        t.wf(),
        t.contains(s),
    ensures
        t.after_lookup(s, name).bind(s, name).lookup(s, name) == Some(s),
{
    lemma_replace_keeps_wf(t, s);
    let t1 = t.after_lookup(s, name);
    assert(t1.wf());
    lemma_lookup_after_bind(t1, s, name);
}

} // verus!
