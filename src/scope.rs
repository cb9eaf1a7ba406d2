//! Scope identities, the scope table and the resolution algorithm.

use rustc_hash::FxHashMap;
use vstd::prelude::*;

use crate::bindings::{binding_get, binding_insert, binding_remove, bindings_of, empty_bindings};

verus! {

/// Marks a name that was looked up here and resolves to nothing.
const TOMBSTONE: u32 = 0;

/// Marks a name bound here to no value.
const UNDEFINED: u32 = 1;

/// The first identity handed out to a real scope.
pub const FIRST: u32 = 2;

/// An opaque handle of one scope, unique within one table.
#[derive(Debug, Clone, Copy, PartialEq, Eq, Hash, Structural)]
pub struct ScopeInfoId(u32);

impl ScopeInfoId {
    /// The number behind the handle.
    pub closed spec fn raw(self) -> int {
        self.0 as int
    }

    /// The marker stored by `unbind` and by the negative cache.
    pub closed spec fn tombstone() -> ScopeInfoId {
        ScopeInfoId(TOMBSTONE)
    }

    /// A sentinel is one of the two reserved markers, never a real scope.
    pub open spec fn is_sentinel(self) -> bool {
        self.raw() < FIRST as int
    }

    /// The identity of the first scope a table creates.
    pub fn init() -> (r: ScopeInfoId)
        ensures
            r.raw() == FIRST as int,
    {
        ScopeInfoId(FIRST)
    }
}

/// The abstract value of one scope.
#[verifier::ext_equal]
pub struct ScopeView {
    /// The scopes from the root down to this one, this one last.
    pub chain: Seq<ScopeInfoId>,
    /// What each name is recorded as at this scope: its owner or a sentinel.
    pub bindings: Map<Seq<char>, ScopeInfoId>,
    pub is_strict: bool,
}

/// The abstract value of a scope table: the scope whose identity is
/// `FIRST + i` stands at position `i`.
#[verifier::ext_equal]
pub struct ScopeTable {
    pub scopes: Seq<ScopeView>,
}

/// What an entry found during a lookup resolves to.
pub open spec fn entry_result(v: ScopeInfoId) -> Option<ScopeInfoId> {
    if v.is_sentinel() {
        None
    } else {
        Some(v)
    }
}

impl ScopeTable {
    /// The position of a scope's identity in the table.
    pub open spec fn index(id: ScopeInfoId) -> int {
        id.raw() - FIRST as int
    }

    /// The raw identity that the next created scope receives.
    pub open spec fn next_raw(self) -> int {
        FIRST as int + self.scopes.len()
    }

    pub open spec fn contains(self, id: ScopeInfoId) -> bool {
        FIRST as int <= id.raw() < self.next_raw()
    }

    pub open spec fn scope(self, id: ScopeInfoId) -> ScopeView {
        self.scopes[Self::index(id)]
    }

    pub open spec fn is_root(self, id: ScopeInfoId) -> bool {
        self.scope(id).chain.len() == 1
    }

    /// The scope next to `id` on the way to the root.
    pub open spec fn parent(self, id: ScopeInfoId) -> ScopeInfoId {
        let c = self.scope(id).chain;
        c[c.len() - 2]
    }

    /// The scope at position `i` has a chain that runs from its root down
    /// to itself, by strictly rising identities of scopes of the table, and
    /// that extends its parent's chain.
    pub open spec fn scope_wf(self, i: int) -> bool {
        let c = self.scopes[i].chain;
        &&& c.len() >= 1
        &&& c.last().raw() == FIRST as int + i
        &&& forall|j: int| 0 <= j < c.len() ==> self.contains(#[trigger] c[j])
        &&& forall|j: int, k: int|
            0 <= j < k < c.len() ==> (#[trigger] c[j]).raw() < (#[trigger] c[k]).raw()
        &&& c.len() > 1 ==> c == self.scope(c[c.len() - 2]).chain.push(c.last())
    }

    pub open spec fn wf(self) -> bool {
        forall|i: int| 0 <= i < self.scopes.len() ==> #[trigger] self.scope_wf(i)
    }

    /// Whether one more scope can be given a fresh identity.
    pub open spec fn can_create(self) -> bool {
        self.next_raw() < u32::MAX as int
    }

    /// The table after adding a scope `id` under `parent`, or a root scope.
    pub open spec fn with_scope(self, parent: Option<ScopeInfoId>, id: ScopeInfoId) -> ScopeTable {
        let view = match parent {
            Some(p) => ScopeView {
                chain: self.scope(p).chain.push(id),
                bindings: Map::empty(),
                is_strict: self.scope(p).is_strict,
            },
            None => ScopeView { chain: seq![id], bindings: Map::empty(), is_strict: false },
        };
        ScopeTable { scopes: self.scopes.push(view) }
    }

    /// The table with scope `id` replaced by `v`.
    pub open spec fn replace(self, id: ScopeInfoId, v: ScopeView) -> ScopeTable {
        ScopeTable { scopes: self.scopes.update(Self::index(id), v) }
    }

    /// The table after recording `value` for `name` at scope `id`.
    pub open spec fn set_entry(self, id: ScopeInfoId, name: Seq<char>, value: ScopeInfoId) -> ScopeTable {
        let s = self.scope(id);
        self.replace(id, ScopeView { bindings: s.bindings.insert(name, value), ..s })
    }

    /// The table after `bind(id, name)`.
    pub open spec fn bind(self, id: ScopeInfoId, name: Seq<char>) -> ScopeTable {
        self.set_entry(id, name, id)
    }

    /// The table after `unbind(id, name)`: a tombstone below the root, a
    /// removal at a root.
    pub open spec fn unbind(self, id: ScopeInfoId, name: Seq<char>) -> ScopeTable {
        if self.is_root(id) {
            let s = self.scope(id);
            self.replace(id, ScopeView { bindings: s.bindings.remove(name), ..s })
        } else {
            self.set_entry(id, name, ScopeInfoId::tombstone())
        }
    }

    /// The entry for `name` met first when walking the first `n` scopes of
    /// `chain` from the last of them towards the root, if any has one.
    pub open spec fn search(self, chain: Seq<ScopeInfoId>, n: int, name: Seq<char>) -> Option<
        ScopeInfoId,
    >
        decreases n,
    {
        if n <= 0 {
            None
        } else if self.scope(chain[n - 1]).bindings.contains_key(name) {
            Some(self.scope(chain[n - 1]).bindings[name])
        } else {
            self.search(chain, n - 1, name)
        }
    }

    /// The entry for `name` visible from scope `id`: its own first, then
    /// each ancestor from the nearest to the root.
    pub open spec fn visible_entry(self, id: ScopeInfoId, name: Seq<char>) -> Option<ScopeInfoId> {
        let c = self.scope(id).chain;
        self.search(c, c.len() as int, name)
    }

    /// What `lookup(id, name)` returns: the owner of the first entry met,
    /// nothing where that entry is a sentinel or where there is none.
    pub open spec fn lookup(self, id: ScopeInfoId, name: Seq<char>) -> Option<ScopeInfoId> {
        match self.visible_entry(id, name) {
            Some(v) => entry_result(v),
            None => None,
        }
    }

    /// The table after `lookup(id, name)`: a walk over ancestors that finds
    /// no entry leaves a tombstone at `id`.
    pub open spec fn after_lookup(self, id: ScopeInfoId, name: Seq<char>) -> ScopeTable {
        if self.visible_entry(id, name).is_none() && !self.is_root(id) {
            self.set_entry(id, name, ScopeInfoId::tombstone())
        } else {
            self
        }
    }
}

/// A scope's chain ends at the scope itself.
pub(crate) proof fn lemma_chain_ends_at(t: ScopeTable, id: ScopeInfoId)
    requires
        t.wf(),
        t.contains(id),
    ensures
        t.scope(id).chain.len() >= 1,
        t.scope(id).chain.last() == id,
{
    assert(t.scope_wf(ScopeTable::index(id)));
}

/// The tombstone is a sentinel.
pub(crate) proof fn lemma_tombstone_is_sentinel()
    ensures
        ScopeInfoId::tombstone().is_sentinel(),
{
}

/// Replacing a scope by one with the same chain keeps the table well formed.
pub(crate) proof fn lemma_replace_keeps_wf(t: ScopeTable, id: ScopeInfoId)
    requires
        t.wf(),
        t.contains(id),
    ensures
        forall|v: ScopeView|
            v.chain == t.scope(id).chain ==> (#[trigger] t.replace(id, v)).wf(),
{
    assert forall|v: ScopeView| v.chain == t.scope(id).chain implies (#[trigger] t.replace(id, v)).wf() by {
        lemma_replace_one_keeps_wf(t, id, v);
    }
}

proof fn lemma_replace_one_keeps_wf(t: ScopeTable, id: ScopeInfoId, v: ScopeView)
    requires
        t.wf(),
        t.contains(id),
        v.chain == t.scope(id).chain,
    ensures
        t.replace(id, v).wf(),
{
    let t2 = t.replace(id, v);
    assert forall|i: int| 0 <= i < t2.scopes.len() implies #[trigger] t2.scope_wf(i) by {
        assert(t.scope_wf(i));
        assert(t2.scopes[i].chain == t.scopes[i].chain);
        let c = t.scopes[i].chain;
        if c.len() > 1 {
            assert(t.contains(c[c.len() - 2]));
            assert(t2.scope(c[c.len() - 2]).chain == t.scope(c[c.len() - 2]).chain);
        }
    }
}

/// A copy of a chain of identities.
fn copy_chain(v: &Vec<ScopeInfoId>) -> (r: Vec<ScopeInfoId>)
    ensures
        r@ == v@,
{
    let mut r: Vec<ScopeInfoId> = Vec::with_capacity(v.len());
    let mut i: usize = 0;
    while i < v.len()
        invariant
            i <= v.len(),
            r@ == v@.subrange(0, i as int),
        decreases v.len() - i,
    {
        r.push(v[i]);
        i += 1;
        assert(r@ =~= v@.subrange(0, i as int));
    }
    assert(v@.subrange(0, v.len() as int) =~= v@);
    r
}

/// Adding a scope with the next identity keeps the table well formed.
pub(crate) proof fn lemma_with_scope_wf(t: ScopeTable, parent: Option<ScopeInfoId>, id: ScopeInfoId)
    requires
        t.wf(),
        id.raw() == t.next_raw(),
        parent matches Some(p) ==> t.contains(p),
    ensures
        t.with_scope(parent, id).wf(),
{
    let t2 = t.with_scope(parent, id);
    let n = t.scopes.len() as int;
    assert forall|i: int| 0 <= i < t2.scopes.len() implies #[trigger] t2.scope_wf(i) by {
        if i < n {
            assert(t.scope_wf(i));
            assert(t2.scopes[i] == t.scopes[i]);
            let c = t.scopes[i].chain;
            if c.len() > 1 {
                assert(t.contains(c[c.len() - 2]));
            }
        } else {
            let c = t2.scopes[i].chain;
            match parent {
                Some(p) => {
                    let pc = t.scope(p).chain;
                    assert(t.scope_wf(ScopeTable::index(p)));
                    assert(c == pc.push(id));
                    assert forall|j: int| 0 <= j < pc.len() implies (#[trigger] pc[j]).raw() <= p.raw() by {
                        if j < pc.len() - 1 {
                            assert(pc[j].raw() < pc[pc.len() - 1].raw());
                        }
                    }
                    assert forall|j: int| 0 <= j < c.len() implies t2.contains(#[trigger] c[j]) by {
                        if j < pc.len() {
                            assert(c[j] == pc[j]);
                            assert(t.contains(pc[j]));
                        }
                    }
                    assert forall|j: int, k: int| 0 <= j < k < c.len() implies (#[trigger] c[j]).raw() < (#[trigger] c[k]).raw() by {
                        assert(c[j] == pc[j]);
                        if k < pc.len() {
                            assert(c[k] == pc[k]);
                        } else {
                            assert(pc[j].raw() <= p.raw());
                        }
                    }
                    assert(c[c.len() - 2] == p);
                    assert(t2.scope(p) == t.scope(p));
                    assert(c.drop_last() =~= pc);
                },
                None => {
                    assert(c =~= seq![id]);
                },
            }
        }
    }
}

/// One lexical scope: its chain of ancestors and what each name is
/// recorded as here.
#[derive(Debug)]
pub struct ScopeInfo {
    stack: Vec<ScopeInfoId>,
    map: FxHashMap<String, ScopeInfoId>,
    pub is_strict: bool,
}

impl View for ScopeInfo {
    type V = ScopeView;

    closed spec fn view(&self) -> ScopeView {
        ScopeView { chain: self.stack@, bindings: bindings_of(self.map), is_strict: self.is_strict }
    }
}

/// The table of all scopes of one traversal. Scopes are never removed, so
/// the scope with identity `FIRST + i` is stored at position `i`.
#[derive(Debug)]
pub struct ScopeInfoDB {
    count: ScopeInfoId,
    scopes: Vec<ScopeInfo>,
}

impl View for ScopeInfoDB {
    type V = ScopeTable;

    closed spec fn view(&self) -> ScopeTable {
        ScopeTable { scopes: self.scopes@.map_values(|s: ScopeInfo| s@) }
    }
}

impl ScopeInfoDB {
    /// The next identity to hand out follows the stored scopes, and the
    /// scopes are well formed.
    pub closed spec fn wf(&self) -> bool {
        &&& self.count.0 as int == self@.next_raw()
        &&& self@.wf()
    }

    /// The identity that the next created scope receives.
    pub closed spec fn next_id(&self) -> ScopeInfoId {
        self.count
    }

    fn next(&mut self) -> (r: ScopeInfoId)
        requires
            old(self).count.0 < u32::MAX,
        ensures
            r == old(self).count,
            final(self).count.0 == old(self).count.0 + 1,
            final(self).scopes == old(self).scopes,
    {
        let id = self.count;
        self.count = ScopeInfoId(self.count.0 + 1);
        id
    }

    /// An empty table.
    pub fn new() -> (r: Self)
        ensures
            r.wf(),
            r@.scopes.len() == 0,
    {
        let r = ScopeInfoDB { count: ScopeInfoId::init(), scopes: Vec::new() };
        assert(r@.scopes =~= Seq::<ScopeView>::empty());
        r
    }

    /// The scope `id`.
    pub fn expect_get(&self, id: &ScopeInfoId) -> (r: &ScopeInfo)
        requires
            self.wf(),
            self@.contains(*id),
        ensures
            r@ == self@.scope(*id),
    {
        &self.scopes[(id.0 - FIRST) as usize]
    }

    /// The scope `id`, to be changed in place. The table stays well formed
    /// as long as the scope's chain is kept.
    pub fn expect_get_mut(&mut self, id: &ScopeInfoId) -> (r: &mut ScopeInfo)
        requires
            old(self).wf(),
            old(self)@.contains(*id),
        ensures
            r@ == old(self)@.scope(*id),
            final(self)@ =~= old(self)@.replace(*id, final(r)@),
            final(self).next_id() == old(self).next_id(),
    {
        let i = (id.0 - FIRST) as usize;
        &mut self.scopes[i]
    }

    /// Whether the scope `id` is in strict mode.
    pub fn is_strict(&self, id: &ScopeInfoId) -> (r: bool)
        requires
            self.wf(),
            self@.contains(*id),
        ensures
            r == self@.scope(*id).is_strict,
    {
        self.expect_get(id).is_strict
    }

    /// Adds a scope under `parent`, or a root scope, with a fresh identity.
    fn _create(&mut self, parent: Option<&ScopeInfoId>) -> (r: ScopeInfoId)
        requires
            old(self).wf(),
            old(self)@.can_create(),
            parent matches Some(p) ==> old(self)@.contains(*p),
        ensures
            final(self).wf(),
            r.raw() == old(self)@.next_raw(),
            final(self)@ == old(self)@.with_scope(
                match parent {
                    Some(p) => Some(*p),
                    None => None,
                },
                r,
            ),
    {
        let ghost t = self@;
        let id = self.next();
        let stack = match parent {
            Some(parent) => {
                let mut parent_stack = copy_chain(&self.scopes[(parent.0 - FIRST) as usize].stack);
                parent_stack.push(id);
                parent_stack
            },
            None => vec![id],
        };
        let is_strict = match parent {
            Some(parent) => self.scopes[(parent.0 - FIRST) as usize].is_strict,
            None => false,
        };
        let info = ScopeInfo { is_strict, stack, map: empty_bindings() };
        self.scopes.push(info);
        let ghost p = match parent {
            Some(p) => Some(*p),
            None => None,
        };
        proof {
            assert(info@.bindings =~= Map::<Seq<char>, ScopeInfoId>::empty());
            assert(info@ == t.with_scope(p, id).scopes.last());
            assert(self@.scopes =~= t.with_scope(p, id).scopes);
            lemma_with_scope_wf(t, p, id);
        }
        id
    }

    /// Records `value` for `key` at scope `id`.
    fn set_entry(&mut self, id: ScopeInfoId, key: String, value: ScopeInfoId)
        requires
            old(self).wf(),
            old(self)@.contains(id),
        ensures
            final(self).wf(),
            final(self)@ == old(self)@.set_entry(id, key@, value),
    {
        proof {
            lemma_replace_keeps_wf(self@, id);
        }
        let scope = self.expect_get_mut(&id);
        binding_insert(&mut scope.map, key, value);
        assert(self@ =~= old(self)@.set_entry(id, key@, value));
    }

    /// Binds `key` at scope `id`: the scope becomes the owner of the name
    /// there, whatever was recorded for it before.
    pub fn set(&mut self, id: ScopeInfoId, key: String)
        requires
            old(self).wf(),
            old(self)@.contains(id),
        ensures
            final(self).wf(),
            final(self)@ == old(self)@.bind(id, key@),
    {
        self.set_entry(id, key, id);
    }

    /// Unbinds `key` at scope `id`. Below a root a tombstone is left, so the
    /// name is hidden from this scope and the scopes under it; at a root the
    /// entry is removed.
    pub fn delete(&mut self, id: ScopeInfoId, key: &str)
        requires
            old(self).wf(),
            old(self)@.contains(id),
        ensures
            final(self).wf(),
            final(self)@ == old(self)@.unbind(id, key@),
    {
        if self.expect_get(&id).stack.len() > 1 {
            self.set_entry(id, key.to_owned(), ScopeInfoId(TOMBSTONE));
        } else {
            proof {
                lemma_replace_keeps_wf(self@, id);
                assert(self@.scope_wf(ScopeTable::index(id)));
                assert(self@.is_root(id));
            }
            let scope = self.expect_get_mut(&id);
            binding_remove(&mut scope.map, key);
            assert(self@ =~= old(self)@.unbind(id, key@));
        }
    }

    /// Looks `key` up from scope `id`: the owner of the entry met first on
    /// the way from `id` to its root, or nothing where that entry is a
    /// sentinel or no scope on the way has one. A walk over the ancestors
    /// that meets no entry leaves a tombstone at `id`, so that the next
    /// lookup of `key` there stops at once.
    pub fn get(&mut self, id: &ScopeInfoId, key: &str) -> (r: Option<ScopeInfoId>)
        requires
            old(self).wf(),
            old(self)@.contains(*id),
        ensures
            final(self).wf(),
            r == old(self)@.lookup(*id, key@),
            final(self)@ == old(self)@.after_lookup(*id, key@),
    {
        let definitions = self.expect_get(id);
        let ghost c = definitions@.chain;
        proof {
            assert(self@.scope_wf(ScopeTable::index(*id)));
            assert(c.last() == *id);
        }
        if let Some(top_value) = binding_get(&definitions.map, key) {
            assert(self@.visible_entry(*id, key@) == Some(top_value));
            if top_value.0 == TOMBSTONE || top_value.0 == UNDEFINED {
                None
            } else {
                Some(top_value)
            }
        } else if definitions.stack.len() > 1 {
            let mut index: usize = definitions.stack.len() - 1;
            while index > 0
                invariant
                    self.wf(),
                    *self == *old(self),
                    self@.contains(*id),
                    definitions@ == self@.scope(*id),
                    c == definitions@.chain,
                    0 <= index < c.len(),
                    self@.visible_entry(*id, key@) == self@.search(c, index as int, key@),
                decreases index,
            {
                index -= 1;
                let ancestor = definitions.stack[index];
                proof {
                    assert(self@.scope_wf(ScopeTable::index(*id)));
                }
                let scope = self.expect_get(&ancestor);
                if let Some(value) = binding_get(&scope.map, key) {
                    assert(self@.visible_entry(*id, key@) == Some(value));
                    if value.0 == TOMBSTONE || value.0 == UNDEFINED {
                        return None;
                    } else {
                        return Some(value);
                    }
                }
            }
            assert(self@.visible_entry(*id, key@) == None::<ScopeInfoId>);
            self.set_entry(*id, key.to_owned(), ScopeInfoId(TOMBSTONE));
            None
        } else {
            assert(self@.visible_entry(*id, key@) == None::<ScopeInfoId>);
            None
        }
    }

    /// Adds a root scope.
    pub fn create(&mut self) -> (r: ScopeInfoId)
        requires
            old(self).wf(),
            old(self)@.can_create(),
        ensures
            final(self).wf(),
            r.raw() == old(self)@.next_raw(),
            final(self)@ == old(self)@.with_scope(None, r),
    {
        self._create(None)
    }

    /// Adds a scope nested in `parent`.
    pub fn create_child(&mut self, parent: &ScopeInfoId) -> (r: ScopeInfoId)
        requires
            old(self).wf(),
            old(self)@.can_create(),
            old(self)@.contains(*parent),
        ensures
            final(self).wf(),
            r.raw() == old(self)@.next_raw(),
            final(self)@ == old(self)@.with_scope(Some(*parent), r),
    {
        self._create(Some(parent))
    }
}

} // verus!
