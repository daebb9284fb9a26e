//! Scopes: flat mappings from names to values, the chain of frames that
//! nested blocks and calls build, and dotted paths through scope values.
use vstd::prelude::*;
use crate::errors::CreateError;
use crate::errors::CreateResult;
use crate::errors::PATH;
use crate::errors::SYNTAX;
use crate::errors::UNKNOWN_NAME;
use crate::model::CreateAny;
use crate::model::Identifier;
use crate::model::Path;
use crate::model::PrimitiveScope;
use crate::model::ScopeView;
use crate::model::ValueView;
use crate::model::clone_identifier;
use crate::model::path_view;

verus! {

/// How a binding chooses its frame.
#[derive(Clone, Copy, Debug)]
pub enum InsertMode {
    /// Rewrite in the outermost enclosing frame that holds the name, else
    /// create in the current frame.
    Normal,
    /// Always the current frame.
    Local,
    /// Always the root frame.
    Global,
}

/// The model of an optional value.
pub open spec fn option_view(value: Option<CreateAny>) -> Option<ValueView> {
    match value {
        Some(v) => Some(v@),
        None => None,
    }
}

/// Whether some entry has the name.
pub open spec fn has_key(s: ScopeView, key: Seq<char>) -> bool {
    exists|i: int| 0 <= i < s.len() && (#[trigger] s[i]).0 == key
}

/// Whether `i` is the first entry with the name.
pub open spec fn first_at(s: ScopeView, key: Seq<char>, i: int) -> bool {
    &&& 0 <= i < s.len()
    &&& s[i].0 == key
    &&& forall|j: int| 0 <= j < i ==> (#[trigger] s[j]).0 != key
}

/// The first entry with the name.
pub open spec fn key_index(s: ScopeView, key: Seq<char>) -> int {
    choose|i: int| first_at(s, key, i)
}

/// The value bound to the name.
pub open spec fn scope_get(s: ScopeView, key: Seq<char>) -> Option<ValueView> {
    if has_key(s, key) {
        Some(s[key_index(s, key)].1)
    } else {
        None
    }
}

/// The scope after the name is bound: the entry is rewritten in place, or a
/// new entry is added at the end.
pub open spec fn scope_insert(s: ScopeView, key: Seq<char>, value: ValueView) -> ScopeView {
    if has_key(s, key) {
        s.update(key_index(s, key), (key, value))
    } else {
        s.push((key, value))
    }
}

/// A first entry is the one that `key_index` names.
pub proof fn lemma_first_at(s: ScopeView, key: Seq<char>, i: int)
    requires
        first_at(s, key, i),
    ensures
        has_key(s, key),
        key_index(s, key) == i,
{
    let k = key_index(s, key);
    assert(first_at(s, key, k));
    if k < i {
        assert(s[k].0 != key);
    }
    if i < k {
        assert(s[i].0 != key);
    }
}

/// Where a name is bound, some entry is the first to bind it.
pub proof fn lemma_has_key(s: ScopeView, key: Seq<char>)
    requires
        has_key(s, key),
    ensures
        first_at(s, key, key_index(s, key)),
    decreases s.len(),
{
    let w = choose|i: int| 0 <= i < s.len() && (#[trigger] s[i]).0 == key;
    lemma_first_below(s, key, w);
}

proof fn lemma_first_below(s: ScopeView, key: Seq<char>, w: int)
    requires
        0 <= w < s.len(),
        s[w].0 == key,
    ensures
        exists|i: int| first_at(s, key, i),
        first_at(s, key, key_index(s, key)),
    decreases w,
{
    if forall|j: int| 0 <= j < w ==> (#[trigger] s[j]).0 != key {
        assert(first_at(s, key, w));
    } else {
        let j = choose|j: int| 0 <= j < w && (#[trigger] s[j]).0 == key;
        lemma_first_below(s, key, j);
    }
}

/// The model of a scope chain.  `scope` is the current frame; `parents` holds
/// the enclosing frames, the root first.
pub struct ChainView {
    pub parents: Seq<ScopeView>,
    pub scope: ScopeView,
}

/// Whether some enclosing frame binds the name.
pub open spec fn parents_have(parents: Seq<ScopeView>, key: Seq<char>) -> bool {
    exists|i: int| 0 <= i < parents.len() && has_key(#[trigger] parents[i], key)
}

/// Whether `j` is the outermost enclosing frame that binds the name.
pub open spec fn outermost_at(parents: Seq<ScopeView>, key: Seq<char>, j: int) -> bool {
    &&& 0 <= j < parents.len()
    &&& has_key(parents[j], key)
    &&& forall|i: int| 0 <= i < j ==> !has_key(#[trigger] parents[i], key)
}

/// Whether `j` is the innermost enclosing frame that binds the name.
pub open spec fn innermost_at(parents: Seq<ScopeView>, key: Seq<char>, j: int) -> bool {
    &&& 0 <= j < parents.len()
    &&& has_key(parents[j], key)
    &&& forall|i: int| j < i < parents.len() ==> !has_key(#[trigger] parents[i], key)
}

/// The outermost enclosing frame that binds the name.
pub open spec fn outermost(parents: Seq<ScopeView>, key: Seq<char>) -> int {
    choose|j: int| outermost_at(parents, key, j)
}

/// The innermost enclosing frame that binds the name.
pub open spec fn innermost(parents: Seq<ScopeView>, key: Seq<char>) -> int {
    choose|j: int| innermost_at(parents, key, j)
}

impl ChainView {
    /// Whether any frame binds the name.
    pub open spec fn contains_key(self, key: Seq<char>) -> bool {
        has_key(self.scope, key) || parents_have(self.parents, key)
    }

    /// The value a name resolves to: the binding of the innermost frame that
    /// has one.
    pub open spec fn get(self, key: Seq<char>) -> Option<ValueView> {
        if has_key(self.scope, key) {
            scope_get(self.scope, key)
        } else if parents_have(self.parents, key) {
            scope_get(self.parents[innermost(self.parents, key)], key)
        } else {
            None
        }
    }

    /// The chain after the name is bound in the current frame.
    pub open spec fn insert_locally(self, key: Seq<char>, value: ValueView) -> ChainView {
        ChainView { parents: self.parents, scope: scope_insert(self.scope, key, value) }
    }

    /// The chain after the name is bound in the root frame.
    pub open spec fn insert_globally(self, key: Seq<char>, value: ValueView) -> ChainView {
        if self.parents.len() > 0 {
            ChainView {
                parents: self.parents.update(0, scope_insert(self.parents[0], key, value)),
                scope: self.scope,
            }
        } else {
            self.insert_locally(key, value)
        }
    }

    /// The chain after the name is bound where an enclosing frame already binds
    /// it, the outermost such frame if there are several, else in the current
    /// frame.
    pub open spec fn insert(self, key: Seq<char>, value: ValueView) -> ChainView {
        if parents_have(self.parents, key) {
            let j = outermost(self.parents, key);
            ChainView {
                parents: self.parents.update(j, scope_insert(self.parents[j], key, value)),
                scope: self.scope,
            }
        } else {
            self.insert_locally(key, value)
        }
    }

    /// The chain after the name is bound in the frame that `mode` selects.
    pub open spec fn insert_with(self, mode: InsertMode, key: Seq<char>, value: ValueView) -> ChainView {
        match mode {
            InsertMode::Normal => self.insert(key, value),
            InsertMode::Local => self.insert_locally(key, value),
            InsertMode::Global => self.insert_globally(key, value),
        }
    }

    /// The chain with a fresh, empty current frame.
    pub open spec fn child(self) -> ChainView {
        ChainView { parents: self.parents.push(self.scope), scope: Seq::empty() }
    }

    /// The chain without its current frame; unchanged at the root.
    pub open spec fn leave(self) -> ChainView {
        if self.parents.len() > 0 {
            ChainView { parents: self.parents.drop_last(), scope: self.parents.last() }
        } else {
            self
        }
    }

    /// The frame that a normal insertion of the name writes to.
    pub open spec fn target(self, key: Seq<char>) -> ScopeView {
        if parents_have(self.parents, key) {
            self.parents[outermost(self.parents, key)]
        } else {
            self.scope
        }
    }

    /// The root frame.
    pub open spec fn root(self) -> ScopeView {
        if self.parents.len() > 0 {
            self.parents[0]
        } else {
            self.scope
        }
    }
}

/// Walks the segments of `path` from `k` on through nested scope values.
pub open spec fn descend(value: ValueView, path: Path, k: int) -> Result<ValueView, usize>
    decreases path.len() - k,
{
    if k >= path.len() {
        Ok(value)
    } else {
        match value {
            ValueView::Scope(s) => match scope_get(s, path[k]) {
                Some(w) => descend(w, path, k + 1),
                None => Err(UNKNOWN_NAME),
            },
            _ => Err(SYNTAX),
        }
    }
}

/// What a dotted path resolves to: the first segment in the chain, every
/// further segment in the scope value the one before it named.
pub open spec fn spec_resolve(chain: ChainView, path: Path) -> Result<ValueView, usize> {
    if path.len() == 0 {
        Err(PATH)
    } else {
        match chain.get(path[0]) {
            Some(v) => descend(v, path, 1),
            None => Err(UNKNOWN_NAME),
        }
    }
}

/// The value after `value` is bound to the last segment of `path` in the scope
/// value that the segments from `k` on name.
pub open spec fn value_updated(w: ValueView, path: Path, k: int, value: ValueView) -> ValueView
    decreases path.len() - k,
{
    match w {
        ValueView::Scope(s) => if k >= path.len() - 1 {
            ValueView::Scope(scope_insert(s, path[k], value))
        } else if has_key(s, path[k]) {
            let i = key_index(s, path[k]);
            ValueView::Scope(s.update(i, (s[i].0, value_updated(s[i].1, path, k + 1, value))))
        } else {
            w
        },
        _ => w,
    }
}

/// The scope after the binding of `path[0]` is replaced by its update.
pub open spec fn scope_updated(s: ScopeView, path: Path, value: ValueView) -> ScopeView {
    let i = key_index(s, path[0]);
    s.update(i, (s[i].0, value_updated(s[i].1, path, 1, value)))
}

/// The chain after an assignment through a path of two or more segments.
pub open spec fn chain_updated(chain: ChainView, path: Path, value: ValueView) -> ChainView {
    if has_key(chain.scope, path[0]) {
        ChainView { parents: chain.parents, scope: scope_updated(chain.scope, path, value) }
    } else if parents_have(chain.parents, path[0]) {
        let j = innermost(chain.parents, path[0]);
        ChainView {
            parents: chain.parents.update(j, scope_updated(chain.parents[j], path, value)),
            scope: chain.scope,
        }
    } else {
        chain
    }
}

/// The value that an assignment to a path replaces, if it replaces one.
pub open spec fn spec_replaced(chain: ChainView, path: Path, mode: InsertMode) -> Option<ValueView> {
    if path.len() == 0 {
        None
    } else if path.len() == 1 {
        match mode {
            InsertMode::Normal => scope_get(chain.target(path[0]), path[0]),
            InsertMode::Local => scope_get(chain.scope, path[0]),
            InsertMode::Global => scope_get(chain.root(), path[0]),
        }
    } else {
        match spec_resolve(chain, path) {
            Ok(v) => Some(v),
            Err(_) => None,
        }
    }
}

/// The outcome of an assignment to a path: the new chain, or the error code.
/// A single segment is bound in the frame that `mode` selects.  A longer path
/// must name a scope value with all but its last segment; the last segment is
/// bound in that value.
pub open spec fn spec_insert_at(chain: ChainView, path: Path, value: ValueView, mode: InsertMode) -> Result<
    ChainView,
    usize,
> {
    if path.len() == 0 {
        Err(PATH)
    } else if path.len() == 1 {
        Ok(chain.insert_with(mode, path[0], value))
    } else {
        match spec_resolve(chain, path.drop_last()) {
            Ok(ValueView::Scope(_)) => Ok(chain_updated(chain, path, value)),
            Ok(_) => Err(SYNTAX),
            Err(code) => Err(code),
        }
    }
}

impl PrimitiveScope {
    /// The empty scope.
    pub fn new() -> (out: PrimitiveScope)
        ensures
            out@ == Seq::<(Seq<char>, ValueView)>::empty(),
    {
        let out = PrimitiveScope { entries: Vec::new() };
        proof {
            assert(out@ =~= Seq::empty());
        }
        out
    }

    fn find(&self, key: &String) -> (out: Option<usize>)
        ensures
            out matches Some(i) ==> first_at(self@, key@, i as int),
            out is None ==> !has_key(self@, key@),
    {
        let mut i: usize = 0;
        while i < self.entries.len()
            invariant
                i <= self.entries.len(),
                forall|j: int| 0 <= j < i ==> (#[trigger] self@[j]).0 != key@,
            decreases self.entries.len() - i,
        {
            if self.entries[i].0 == *key {
                return Some(i);
            }
            i = i + 1;
        }
        None
    }

    /// Whether the name is bound.
    pub fn contains_key(&self, key: &String) -> (out: bool)
        ensures
            out == has_key(self@, key@),
    {
        match self.find(key) {
            Some(i) => {
                proof {
                    lemma_first_at(self@, key@, i as int);
                }
                true
            },
            None => false,
        }
    }

    /// The value bound to the name; error 6 when there is none.
    pub fn get_immut(&self, key: &String) -> (out: Result<&CreateAny, CreateError>)
        ensures
            match scope_get(self@, key@) {
                Some(v) => out is Ok && out->Ok_0@ == v,
                None => out is Err && out->Err_0.code == UNKNOWN_NAME,
            },
    {
        match self.find(key) {
            Some(i) => {
                proof {
                    lemma_first_at(self@, key@, i as int);
                }
                Ok(&self.entries[i].1)
            },
            None => Err(CreateError::new(UNKNOWN_NAME, "Could not read buffer from named buffer")),
        }
    }

    /// A copy of the value bound to the name; error 6 when there is none.
    pub fn get(&self, key: &String) -> (out: Result<CreateAny, CreateError>)
        ensures
            match scope_get(self@, key@) {
                Some(v) => out is Ok && out->Ok_0@ == v,
                None => out is Err && out->Err_0.code == UNKNOWN_NAME,
            },
    {
        match self.get_immut(key) {
            Ok(v) => Ok(v.duplicate()),
            Err(e) => Err(e),
        }
    }

    /// Binds the name and gives back the value it was bound to before.
    pub fn insert(&mut self, key: String, value: CreateAny) -> (out: Option<CreateAny>)
        ensures
            final(self)@ == scope_insert(old(self)@, key@, value@),
            option_view(out) == scope_get(old(self)@, key@),
    {
        match self.find(&key) {
            Some(i) => {
                proof {
                    lemma_first_at(self@, key@, i as int);
                }
                let ghost before = self.entries@;
                let previous = self.entries.remove(i);
                self.entries.insert(i, (key, value));
                proof {
                    assert(self.entries@ =~= before.update(i as int, (key, value)));
                    assert(self@ =~= scope_insert(old(self)@, key@, value@));
                }
                Some(previous.1)
            },
            None => {
                self.entries.push((key, value));
                proof {
                    assert(self@ =~= scope_insert(old(self)@, key@, value@));
                }
                None
            },
        }
    }
}

/// A chain of frames.  `scope` is the current frame; `parents` holds the
/// enclosing frames, the root first.
pub struct Scope {
    pub parents: Vec<PrimitiveScope>,
    pub scope: PrimitiveScope,
}

/// The models of a list of frames.
pub open spec fn frames_view(s: Seq<PrimitiveScope>) -> Seq<ScopeView> {
    Seq::new(s.len(), |i: int| s[i]@)
}

impl View for Scope {
    type V = ChainView;

    open spec fn view(&self) -> ChainView {
        ChainView { parents: frames_view(self.parents@), scope: self.scope@ }
    }
}

impl Scope {
    /// A chain of one empty frame, the root.
    pub fn root() -> (out: Scope)
        ensures
            out@ == (ChainView { parents: Seq::empty(), scope: Seq::empty() }),
    {
        let out = Scope { parents: Vec::new(), scope: PrimitiveScope::new() };
        proof {
            assert(out@.parents =~= Seq::empty());
        }
        out
    }

    /// The chain with a fresh, empty frame inside `parent`.
    pub fn new(parent: Scope) -> (out: Scope)
        ensures
            out@ == parent@.child(),
    {
        let mut parents = parent.parents;
        parents.push(parent.scope);
        let out = Scope { parents, scope: PrimitiveScope::new() };
        proof {
            assert(out@.parents =~= parent@.child().parents);
        }
        out
    }

    /// Drops the current frame and gives back the enclosing chain.
    pub fn leave(self) -> (out: Scope)
        ensures
            out@ == self@.leave(),
    {
        let mut parents = self.parents;
        match parents.pop() {
            Some(top) => {
                let out = Scope { parents, scope: top };
                proof {
                    assert(out@.parents =~= self@.leave().parents);
                }
                out
            },
            None => Scope { parents, scope: self.scope },
        }
    }

    /// Opens a fresh, empty frame in place.
    pub fn push_frame(&mut self)
        ensures
            final(self)@ == old(self)@.child(),
    {
        let mut covered = PrimitiveScope::new();
        std::mem::swap(&mut self.scope, &mut covered);
        self.parents.push(covered);
        proof {
            assert(self@.parents =~= old(self)@.child().parents);
        }
    }

    /// Drops the current frame in place; no change at the root.
    pub fn pop_frame(&mut self)
        ensures
            final(self)@ == old(self)@.leave(),
    {
        match self.parents.pop() {
            Some(top) => {
                self.scope = top;
                proof {
                    assert(self@.parents =~= old(self)@.leave().parents);
                }
            },
            None => {},
        }
    }

    fn find_innermost(&self, key: &String) -> (out: Option<usize>)
        ensures
            out matches Some(j) ==> innermost_at(self@.parents, key@, j as int),
            out is None ==> !parents_have(self@.parents, key@),
    {
        let mut k: usize = self.parents.len();
        while k > 0
            invariant
                k <= self.parents.len(),
                forall|i: int| k <= i < self.parents.len() ==> !has_key(#[trigger] self@.parents[i], key@),
            decreases k,
        {
            k = k - 1;
            if self.parents[k].contains_key(key) {
                return Some(k);
            }
        }
        None
    }

    fn find_outermost(&self, key: &String) -> (out: Option<usize>)
        ensures
            out matches Some(j) ==> outermost_at(self@.parents, key@, j as int),
            out is None ==> !parents_have(self@.parents, key@),
    {
        let mut k: usize = 0;
        while k < self.parents.len()
            invariant
                k <= self.parents.len(),
                forall|i: int| 0 <= i < k ==> !has_key(#[trigger] self@.parents[i], key@),
            decreases self.parents.len() - k,
        {
            if self.parents[k].contains_key(key) {
                return Some(k);
            }
            k = k + 1;
        }
        None
    }

    /// Whether any frame binds the name.
    pub fn contains_key(&self, key: &String) -> (out: bool)
        ensures
            out == self@.contains_key(key@),
    {
        if self.scope.contains_key(key) {
            true
        } else {
            match self.find_innermost(key) {
                Some(j) => {
                    proof {
                        assert(has_key(self@.parents[j as int], key@));
                    }
                    true
                },
                None => false,
            }
        }
    }

    /// The value the name resolves to; error 6 when no frame binds it.
    pub fn get_immut(&self, key: &String) -> (out: Result<&CreateAny, CreateError>)
        ensures
            match self@.get(key@) {
                Some(v) => out is Ok && out->Ok_0@ == v,
                None => out is Err && out->Err_0.code == UNKNOWN_NAME,
            },
    {
        if self.scope.contains_key(key) {
            self.scope.get_immut(key)
        } else {
            match self.find_innermost(key) {
                Some(j) => {
                    proof {
                        lemma_innermost(self@.parents, key@, j as int);
                    }
                    self.parents[j].get_immut(key)
                },
                None => Err(CreateError::new(UNKNOWN_NAME, "Could not read buffer from named buffer")),
            }
        }
    }

    /// A copy of the value the name resolves to; error 6 when no frame binds
    /// it.
    pub fn get(&self, key: &String) -> (out: Result<CreateAny, CreateError>)
        ensures
            match self@.get(key@) {
                Some(v) => out is Ok && out->Ok_0@ == v,
                None => out is Err && out->Err_0.code == UNKNOWN_NAME,
            },
    {
        match self.get_immut(key) {
            Ok(v) => Ok(v.duplicate()),
            Err(e) => Err(e),
        }
    }

    fn insert_level(&mut self, level: usize, key: String, value: CreateAny) -> (out: Option<CreateAny>)
        requires
            level < old(self).parents.len(),
        ensures
            final(self)@ == (ChainView {
                parents: old(self)@.parents.update(
                    level as int,
                    scope_insert(old(self)@.parents[level as int], key@, value@),
                ),
                scope: old(self)@.scope,
            }),
            option_view(out) == scope_get(old(self)@.parents[level as int], key@),
    {
        let mut frame = self.parents.remove(level);
        let out = frame.insert(key, value);
        let ghost after = frame@;
        self.parents.insert(level, frame);
        proof {
            assert(self@.parents =~= old(self)@.parents.update(level as int, after));
        }
        out
    }

    /// Binds the name in the current frame.
    pub fn insert_locally(&mut self, key: String, value: CreateAny) -> (out: Option<CreateAny>)
        ensures
            final(self)@ == old(self)@.insert_locally(key@, value@),
            option_view(out) == scope_get(old(self)@.scope, key@),
    {
        self.scope.insert(key, value)
    }

    /// Binds the name in the root frame.
    pub fn insert_globally(&mut self, key: String, value: CreateAny) -> (out: Option<CreateAny>)
        ensures
            final(self)@ == old(self)@.insert_globally(key@, value@),
            option_view(out) == scope_get(old(self)@.root(), key@),
    {
        if self.parents.len() > 0 {
            self.insert_level(0, key, value)
        } else {
            self.scope.insert(key, value)
        }
    }

    /// Binds the name where an enclosing frame already binds it, the outermost
    /// such frame if there are several, else in the current frame.
    pub fn insert(&mut self, key: String, value: CreateAny) -> (out: Option<CreateAny>)
        ensures
            final(self)@ == old(self)@.insert(key@, value@),
            option_view(out) == scope_get(old(self)@.target(key@), key@),
    {
        match self.find_outermost(&key) {
            Some(j) => {
                proof {
                    lemma_outermost(self@.parents, key@, j as int);
                }
                self.insert_level(j, key, value)
            },
            None => self.scope.insert(key, value),
        }
    }

    /// Binds the name in the frame that `mode` selects.
    pub fn insert_with(&mut self, mode: InsertMode, key: String, value: CreateAny) -> (out: Option<CreateAny>)
        ensures
            final(self)@ == old(self)@.insert_with(mode, key@, value@),
            option_view(out) == match mode {
                InsertMode::Normal => scope_get(old(self)@.target(key@), key@),
                InsertMode::Local => scope_get(old(self)@.scope, key@),
                InsertMode::Global => scope_get(old(self)@.root(), key@),
            },
    {
        match mode {
            InsertMode::Normal => self.insert(key, value),
            InsertMode::Local => self.insert_locally(key, value),
            InsertMode::Global => self.insert_globally(key, value),
        }
    }
}

/// What binds names to values: a single frame or a chain of frames.  A single
/// frame behaves as a chain of its own: it is its own root and current frame.
pub trait Scoping {
    /// The chain that this scope stands for.
    spec fn chain(&self) -> ChainView;

    /// A copy of the value the name resolves to; error 6 when nothing binds
    /// it.
    fn get(&self, key: &String) -> (out: Result<CreateAny, CreateError>)
        ensures
            match self.chain().get(key@) {
                Some(v) => out is Ok && out->Ok_0@ == v,
                None => out is Err && out->Err_0.code == UNKNOWN_NAME,
            },
    ;

    /// The value the name resolves to; error 6 when nothing binds it.
    fn get_immut(&self, key: &String) -> (out: Result<&CreateAny, CreateError>)
        ensures
            match self.chain().get(key@) {
                Some(v) => out is Ok && out->Ok_0@ == v,
                None => out is Err && out->Err_0.code == UNKNOWN_NAME,
            },
    ;

    /// Binds the name where an enclosing frame already binds it, else in the
    /// current frame.
    fn insert(&mut self, key: String, value: CreateAny) -> (out: Option<CreateAny>)
        ensures
            final(self).chain() == old(self).chain().insert(key@, value@),
            option_view(out) == scope_get(old(self).chain().target(key@), key@),
    ;

    /// Binds the name in the root frame.
    fn insert_globally(&mut self, key: String, value: CreateAny) -> (out: Option<CreateAny>)
        ensures
            final(self).chain() == old(self).chain().insert_globally(key@, value@),
            option_view(out) == scope_get(old(self).chain().root(), key@),
    ;

    /// Binds the name in the current frame.
    fn insert_locally(&mut self, key: String, value: CreateAny) -> (out: Option<CreateAny>)
        ensures
            final(self).chain() == old(self).chain().insert_locally(key@, value@),
            option_view(out) == scope_get(old(self).chain().scope, key@),
    ;

    /// Whether anything binds the name.
    fn contains_key(&self, key: &String) -> (out: bool)
        ensures
            out == self.chain().contains_key(key@),
    ;

    /// The kind of scope: `"primitive"` for a single frame, `"regular"` for a
    /// chain.
    fn scope_type(&self) -> (out: &'static str)
        ensures
            out@ == if self.is_chain() {
                "regular"@
            } else {
                "primitive"@
            },
    ;

    /// Whether this scope is a chain of frames rather than a single frame.
    spec fn is_chain(&self) -> bool;
}

/// The chain that has `frame` as its only frame.
pub open spec fn alone(frame: ScopeView) -> ChainView {
    ChainView { parents: Seq::empty(), scope: frame }
}

impl Scoping for PrimitiveScope {
    open spec fn chain(&self) -> ChainView {
        alone(self@)
    }

    open spec fn is_chain(&self) -> bool {
        false
    }

    fn get(&self, key: &String) -> (out: Result<CreateAny, CreateError>) {
        PrimitiveScope::get(self, key)
    }

    fn get_immut(&self, key: &String) -> (out: Result<&CreateAny, CreateError>) {
        PrimitiveScope::get_immut(self, key)
    }

    fn insert(&mut self, key: String, value: CreateAny) -> (out: Option<CreateAny>) {
        PrimitiveScope::insert(self, key, value)
    }

    fn insert_globally(&mut self, key: String, value: CreateAny) -> (out: Option<CreateAny>) {
        PrimitiveScope::insert(self, key, value)
    }

    fn insert_locally(&mut self, key: String, value: CreateAny) -> (out: Option<CreateAny>) {
        PrimitiveScope::insert(self, key, value)
    }

    fn contains_key(&self, key: &String) -> (out: bool) {
        PrimitiveScope::contains_key(self, key)
    }

    fn scope_type(&self) -> (out: &'static str) {
        "primitive"
    }
}

impl Scoping for Scope {
    open spec fn chain(&self) -> ChainView {
        self@
    }

    open spec fn is_chain(&self) -> bool {
        true
    }

    fn get(&self, key: &String) -> (out: Result<CreateAny, CreateError>) {
        Scope::get(self, key)
    }

    fn get_immut(&self, key: &String) -> (out: Result<&CreateAny, CreateError>) {
        Scope::get_immut(self, key)
    }

    fn insert(&mut self, key: String, value: CreateAny) -> (out: Option<CreateAny>) {
        Scope::insert(self, key, value)
    }

    fn insert_globally(&mut self, key: String, value: CreateAny) -> (out: Option<CreateAny>) {
        Scope::insert_globally(self, key, value)
    }

    fn insert_locally(&mut self, key: String, value: CreateAny) -> (out: Option<CreateAny>) {
        Scope::insert_locally(self, key, value)
    }

    fn contains_key(&self, key: &String) -> (out: bool) {
        Scope::contains_key(self, key)
    }

    fn scope_type(&self) -> (out: &'static str) {
        "regular"
    }
}

/// Resolves a dotted identifier to the value it names.
///
/// Fails with error 13 on an identifier without segments, error 6 when a
/// segment is bound nowhere, and error 3 when a segment before the last names
/// something that is not a scope.
pub fn resolve_identifier_immut<'a>(in_identifier: &Identifier, scope: &'a Scope) -> (out: Result<
    &'a CreateAny,
    CreateError,
>)
    ensures
        match spec_resolve(scope@, path_view(in_identifier@)) {
            Ok(v) => out is Ok && out->Ok_0@ == v,
            Err(code) => out is Err && out->Err_0.code == code,
        },
{
    if in_identifier.len() == 0 {
        return Err(CreateError::new(PATH, "The identifier did not return an appropriate value."));
    }
    let ghost path = path_view(in_identifier@);
    let mut current: &CreateAny = match scope.get_immut(&in_identifier[0]) {
        Ok(v) => v,
        Err(e) => {
            return Err(e);
        },
    };
    let mut k: usize = 1;
    while k < in_identifier.len()
        invariant
            1 <= k <= in_identifier.len(),
            path == path_view(in_identifier@),
            spec_resolve(scope@, path) == descend(current@, path, k as int),
        decreases in_identifier.len() - k,
    {
        match current {
            CreateAny::SCP(s) => {
                match s.get_immut(&in_identifier[k]) {
                    Ok(v) => {
                        current = v;
                    },
                    Err(e) => {
                        return Err(e);
                    },
                }
            },
            _ => {
                return Err(
                    CreateError::new(SYNTAX, "Identifier in long identifier did not return scope"),
                );
            },
        }
        k = k + 1;
    }
    Ok(current)
}

/// Resolves a dotted identifier to a copy of the value it names; the errors
/// are those of `resolve_identifier_immut`.
pub fn resolve_identifier(in_identifier: &Identifier, scope: &Scope) -> (out: Result<CreateAny, CreateError>)
    ensures
        match spec_resolve(scope@, path_view(in_identifier@)) {
            Ok(v) => out is Ok && out->Ok_0@ == v,
            Err(code) => out is Err && out->Err_0.code == code,
        },
{
    match resolve_identifier_immut(in_identifier, scope) {
        Ok(v) => Ok(v.duplicate()),
        Err(e) => Err(e),
    }
}

fn update_value(value: CreateAny, path: &Identifier, k: usize, val: CreateAny) -> (out: CreateAny)
    requires
        0 < k < path.len(),
    ensures
        out@ == value_updated(value@, path_view(path@), k as int, val@),
    decreases path.len() - k,
{
    match value {
        CreateAny::SCP(inner) => {
            let mut s = inner;
            if k >= path.len() - 1 {
                s.insert(path[k].clone(), val);
                CreateAny::SCP(s)
            } else {
                match s.find(&path[k]) {
                    Some(i) => {
                        proof {
                            lemma_first_at(s@, path@[k as int]@, i as int);
                        }
                        let ghost before = s@;
                        let entry = s.entries.remove(i);
                        let updated = update_value(entry.1, path, k + 1, val);
                        let ghost after = updated@;
                        s.entries.insert(i, (entry.0, updated));
                        proof {
                            assert(s@ =~= before.update(i as int, (before[i as int].0, after)));
                        }
                        CreateAny::SCP(s)
                    },
                    None => CreateAny::SCP(s),
                }
            }
        },
        other => other,
    }
}

fn update_frame(frame: &mut PrimitiveScope, path: &Identifier, val: CreateAny)
    requires
        path.len() >= 2,
        has_key(old(frame)@, path@[0]@),
    ensures
        final(frame)@ == scope_updated(old(frame)@, path_view(path@), val@),
{
    match frame.find(&path[0]) {
        Some(i) => {
            proof {
                lemma_first_at(frame@, path@[0]@, i as int);
            }
            let ghost before = frame@;
            let entry = frame.entries.remove(i);
            let updated = update_value(entry.1, path, 1, val);
            let ghost after = updated@;
            frame.entries.insert(i, (entry.0, updated));
            proof {
                assert(frame@ =~= before.update(i as int, (before[i as int].0, after)));
            }
        },
        None => {},
    }
}

/// Assigns to a dotted identifier; `mode` selects the frame for a single
/// segment.  See `spec_insert_at`.
pub fn insert_through(identifier: Identifier, val: CreateAny, scope: &mut Scope, mode: InsertMode) -> (out:
    CreateResult)
    ensures
        match spec_insert_at(old(scope)@, path_view(identifier@), val@, mode) {
            Ok(chain) => out is Success && final(scope)@ == chain,
            Err(code) => out is Failure && out->Failure_0.code == code && final(scope)@ == old(scope)@,
        },
{
    let mut identifier = identifier;
    let ghost path = path_view(identifier@);
    if identifier.len() == 0 {
        return CreateResult::Failure(
            CreateError::new(PATH, "The identifier did not return an appropriate value."),
        );
    }
    if identifier.len() == 1 {
        match identifier.pop() {
            Some(key) => {
                scope.insert_with(mode, key, val);
            },
            None => {},
        }
        return CreateResult::Success();
    }
    let mut prefix = clone_identifier(&identifier);
    prefix.pop();
    proof {
        assert(path_view(prefix@) =~= path.drop_last());
    }
    match resolve_identifier_immut(&prefix, scope) {
        Ok(CreateAny::SCP(_)) => {},
        Ok(_) => {
            return CreateResult::Failure(CreateError::new(SYNTAX, "Identifier could not be resolved."));
        },
        Err(e) => {
            return CreateResult::Failure(e);
        },
    }
    if scope.scope.contains_key(&identifier[0]) {
        update_frame(&mut scope.scope, &identifier, val);
    } else {
        match scope.find_innermost(&identifier[0]) {
            Some(j) => {
                proof {
                    lemma_innermost(scope@.parents, path[0], j as int);
                }
                let mut frame = scope.parents.remove(j);
                update_frame(&mut frame, &identifier, val);
                let ghost after = frame@;
                scope.parents.insert(j, frame);
                proof {
                    assert(scope@.parents =~= old(scope)@.parents.update(j as int, after));
                }
            },
            None => {},
        }
    }
    CreateResult::Success()
}

/// A copy of the value that an assignment to the identifier would replace.
pub fn replaced(identifier: &Identifier, scope: &Scope, mode: InsertMode) -> (out: Option<CreateAny>)
    ensures
        option_view(out) == spec_replaced(scope@, path_view(identifier@), mode),
{
    if identifier.len() == 0 {
        None
    } else if identifier.len() == 1 {
        let found = match mode {
            InsertMode::Local => scope.scope.get(&identifier[0]),
            InsertMode::Global => {
                if scope.parents.len() > 0 {
                    scope.parents[0].get(&identifier[0])
                } else {
                    scope.scope.get(&identifier[0])
                }
            },
            InsertMode::Normal => {
                match scope.find_outermost(&identifier[0]) {
                    Some(j) => {
                        proof {
                            lemma_outermost(scope@.parents, identifier@[0]@, j as int);
                        }
                        scope.parents[j].get(&identifier[0])
                    },
                    None => scope.scope.get(&identifier[0]),
                }
            },
        };
        match found {
            Ok(v) => Some(v),
            Err(_) => None,
        }
    } else {
        match resolve_identifier(identifier, scope) {
            Ok(v) => Some(v),
            Err(_) => None,
        }
    }
}

fn insert_and_report(identifier: Identifier, val: CreateAny, scope: &mut Scope, mode: InsertMode) -> (out: Result<
    Option<CreateAny>,
    CreateError,
>)
    ensures
        match spec_insert_at(old(scope)@, path_view(identifier@), val@, mode) {
            Ok(chain) => out is Ok && final(scope)@ == chain && option_view(out->Ok_0) == spec_replaced(
                old(scope)@,
                path_view(identifier@),
                mode,
            ),
            Err(code) => out is Err && out->Err_0.code == code && final(scope)@ == old(scope)@,
        },
{
    let before = replaced(&identifier, scope, mode);
    match insert_through(identifier, val, scope, mode) {
        CreateResult::Success() => Ok(before),
        CreateResult::Failure(e) => Err(e),
    }
}

/// Assigns to a dotted identifier and gives back the value that was replaced.
/// A single segment is bound where an enclosing frame already binds it, else
/// in the current frame; a longer path binds its last segment in the scope
/// value that the segments before it name.
pub fn insert_at_identifier(identifier: Identifier, val: CreateAny, scope: &mut Scope) -> (out: Result<
    Option<CreateAny>,
    CreateError,
>)
    ensures
        match spec_insert_at(old(scope)@, path_view(identifier@), val@, InsertMode::Normal) {
            Ok(chain) => out is Ok && final(scope)@ == chain && option_view(out->Ok_0) == spec_replaced(
                old(scope)@,
                path_view(identifier@),
                InsertMode::Normal,
            ),
            Err(code) => out is Err && out->Err_0.code == code && final(scope)@ == old(scope)@,
        },
{
    insert_and_report(identifier, val, scope, InsertMode::Normal)
}

/// Assigns to a dotted identifier and gives back the value that was replaced;
/// a single segment is bound in the root frame.
pub fn insert_at_identifier_globally(identifier: Identifier, val: CreateAny, scope: &mut Scope) -> (out:
    Result<Option<CreateAny>, CreateError>)
    ensures
        match spec_insert_at(old(scope)@, path_view(identifier@), val@, InsertMode::Global) {
            Ok(chain) => out is Ok && final(scope)@ == chain && option_view(out->Ok_0) == spec_replaced(
                old(scope)@,
                path_view(identifier@),
                InsertMode::Global,
            ),
            Err(code) => out is Err && out->Err_0.code == code && final(scope)@ == old(scope)@,
        },
{
    insert_and_report(identifier, val, scope, InsertMode::Global)
}

/// Assigns to a dotted identifier and gives back the value that was replaced;
/// a single segment is bound in the current frame.
pub fn insert_at_identifier_locally(identifier: Identifier, val: CreateAny, scope: &mut Scope) -> (out:
    Result<Option<CreateAny>, CreateError>)
    ensures
        match spec_insert_at(old(scope)@, path_view(identifier@), val@, InsertMode::Local) {
            Ok(chain) => out is Ok && final(scope)@ == chain && option_view(out->Ok_0) == spec_replaced(
                old(scope)@,
                path_view(identifier@),
                InsertMode::Local,
            ),
            Err(code) => out is Err && out->Err_0.code == code && final(scope)@ == old(scope)@,
        },
{
    insert_and_report(identifier, val, scope, InsertMode::Local)
}

/// An outermost binding frame is the one that `outermost` names.
pub proof fn lemma_outermost(parents: Seq<ScopeView>, key: Seq<char>, j: int)
    requires
        outermost_at(parents, key, j),
    ensures
        parents_have(parents, key),
        outermost(parents, key) == j,
{
    let k = outermost(parents, key);
    assert(outermost_at(parents, key, k));
    if k < j {
        assert(!has_key(parents[k], key));
    }
    if j < k {
        assert(!has_key(parents[j], key));
    }
}

/// An innermost binding frame is the one that `innermost` names.
pub proof fn lemma_innermost(parents: Seq<ScopeView>, key: Seq<char>, j: int)
    requires
        innermost_at(parents, key, j),
    ensures
        parents_have(parents, key),
        innermost(parents, key) == j,
{
    let k = innermost(parents, key);
    assert(innermost_at(parents, key, k));
    if k < j {
        assert(!has_key(parents[j], key));
    }
    if j < k {
        assert(!has_key(parents[k], key));
    }
}

proof fn lemma_outermost_below(parents: Seq<ScopeView>, key: Seq<char>, w: int)
    requires
        0 <= w < parents.len(),
        has_key(parents[w], key),
    ensures
        outermost_at(parents, key, outermost(parents, key)),
    decreases w,
{
    if forall|i: int| 0 <= i < w ==> !has_key(#[trigger] parents[i], key) {
        assert(outermost_at(parents, key, w));
    } else {
        let i = choose|i: int| 0 <= i < w && has_key(#[trigger] parents[i], key);
        lemma_outermost_below(parents, key, i);
    }
}

proof fn lemma_innermost_above(parents: Seq<ScopeView>, key: Seq<char>, w: int)
    requires
        0 <= w < parents.len(),
        has_key(parents[w], key),
    ensures
        innermost_at(parents, key, innermost(parents, key)),
    decreases parents.len() - w,
{
    if forall|i: int| w < i < parents.len() ==> !has_key(#[trigger] parents[i], key) {
        assert(innermost_at(parents, key, w));
    } else {
        let i = choose|i: int| w < i < parents.len() && has_key(#[trigger] parents[i], key);
        lemma_innermost_above(parents, key, i);
    }
}

/// Where an enclosing frame binds a name, one of them is the outermost and
/// one the innermost to do so.
pub proof fn lemma_parents_have(parents: Seq<ScopeView>, key: Seq<char>)
    requires
        parents_have(parents, key),
    ensures
        outermost_at(parents, key, outermost(parents, key)),
        innermost_at(parents, key, innermost(parents, key)),
{
    let w = choose|i: int| 0 <= i < parents.len() && has_key(#[trigger] parents[i], key);
    lemma_outermost_below(parents, key, w);
    lemma_innermost_above(parents, key, w);
}

/// An assignment leaves the chain as deep as it was.
pub proof fn lemma_insert_keeps_depth(chain: ChainView, path: Path, value: ValueView, mode: InsertMode)
    ensures
        spec_insert_at(chain, path, value, mode) matches Ok(after) ==> after.parents.len()
            == chain.parents.len(),
{
    if path.len() == 1 {
        if parents_have(chain.parents, path[0]) {
            lemma_parents_have(chain.parents, path[0]);
        }
    } else if path.len() > 1 {
        if !has_key(chain.scope, path[0]) && parents_have(chain.parents, path[0]) {
            lemma_parents_have(chain.parents, path[0]);
        }
    }
}

/// A name is bound to the value that was last inserted under it.
pub proof fn lemma_insert_then_get(s: ScopeView, key: Seq<char>, value: ValueView)
    ensures
        has_key(scope_insert(s, key, value), key),
        scope_get(scope_insert(s, key, value), key) == Some(value),
{
    let t = scope_insert(s, key, value);
    if has_key(s, key) {
        lemma_has_key(s, key);
        let i = key_index(s, key);
        assert(t[i].0 == key);
        assert forall|j: int| 0 <= j < i implies (#[trigger] t[j]).0 != key by {
            assert(s[j].0 != key);
        }
        assert(first_at(t, key, i));
        lemma_first_at(t, key, i);
    } else {
        let i = s.len() as int;
        assert(t[i].0 == key);
        assert forall|j: int| 0 <= j < i implies (#[trigger] t[j]).0 != key by {
            assert(t[j] == s[j]);
        }
        assert(first_at(t, key, i));
        lemma_first_at(t, key, i);
    }
}

/// After a local insertion the name resolves to the inserted value, whatever
/// the enclosing frames bind.
pub proof fn law_local_insert_shadows(chain: ChainView, key: Seq<char>, value: ValueView)
    ensures
        chain.insert_locally(key, value).get(key) == Some(value),
{
    lemma_insert_then_get(chain.scope, key, value);
}

/// After a global insertion the root frame binds the name, to the inserted
/// value.
pub proof fn law_global_insert_reaches_root(chain: ChainView, key: Seq<char>, value: ValueView)
    ensures
        has_key(chain.insert_globally(key, value).root(), key),
        scope_get(chain.insert_globally(key, value).root(), key) == Some(value),
{
    lemma_insert_then_get(chain.root(), key, value);
}

} // verus!
