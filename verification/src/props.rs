//! The dynamic property bag: a per-entity table from name to a tagged
//! value.
//!
//! The schema of fixed components is closed; the bag is the open extension
//! mechanism beside it. A name may be rebound to a value of a different
//! type over its lifetime, but a read or in-place write must name the type
//! currently bound, and fails explicitly otherwise.

use vstd::prelude::*;
use crate::entity::{Direction, Vec2i};
use crate::text::TextNames;
use crate::time::Cooldown;

verus! {

/// Relies on `str`'s `PartialEq`: two string slices are equal exactly when
/// they hold the same characters, which is what the views say.
pub assume_specification[ <str as PartialEq>::eq ](s: &str, other: &str) -> (res: bool)
    ensures
        res == (s@ == other@),
;

/// A type-tagged property value.
#[derive(Debug, PartialEq, Eq)]
pub enum PropValue {
    Int(i64),
    Bool(bool),
    Vec2(Vec2i),
    Dirs(Vec<Direction>),
    Cool(Cooldown),
    Text(TextNames),
}

/// The abstract value of a property: the same variants with collections
/// replaced by their mathematical views.
pub enum PropValueView {
    Int(i64),
    Bool(bool),
    Vec2(Vec2i),
    Dirs(Seq<Direction>),
    Cool(Cooldown),
    Text(TextNames),
}

impl View for PropValue {
    type V = PropValueView;

    open spec fn view(&self) -> PropValueView {
        match self {
            PropValue::Int(v) => PropValueView::Int(*v),
            PropValue::Bool(v) => PropValueView::Bool(*v),
            PropValue::Vec2(v) => PropValueView::Vec2(*v),
            PropValue::Dirs(ds) => PropValueView::Dirs(ds@),
            PropValue::Cool(c) => PropValueView::Cool(*c),
            PropValue::Text(t) => PropValueView::Text(*t),
        }
    }
}

/// The type tag an abstract property value carries.
pub open spec fn kind_of_view(v: PropValueView) -> PropKind {
    match v {
        PropValueView::Int(_) => PropKind::Int,
        PropValueView::Bool(_) => PropKind::Bool,
        PropValueView::Vec2(_) => PropKind::Vec2,
        PropValueView::Dirs(_) => PropKind::Dirs,
        PropValueView::Cool(_) => PropKind::Cool,
        PropValueView::Text(_) => PropKind::Text,
    }
}

/// The type tag of a property value.
#[derive(Debug, Clone, Copy, PartialEq, Eq, Structural)]
pub enum PropKind {
    Int,
    Bool,
    Vec2,
    Dirs,
    Cool,
    Text,
}

impl PropValue {
    /// The type tag this value carries.
    pub open spec fn spec_kind(&self) -> PropKind {
        match self {
            PropValue::Int(_) => PropKind::Int,
            PropValue::Bool(_) => PropKind::Bool,
            PropValue::Vec2(_) => PropKind::Vec2,
            PropValue::Dirs(_) => PropKind::Dirs,
            PropValue::Cool(_) => PropKind::Cool,
            PropValue::Text(_) => PropKind::Text,
        }
    }

    #[verifier::when_used_as_spec(spec_kind)]
    pub fn kind(&self) -> (k: PropKind)
        ensures
            k == self.spec_kind(),
    {
        match self {
            PropValue::Int(_) => PropKind::Int,
            PropValue::Bool(_) => PropKind::Bool,
            PropValue::Vec2(_) => PropKind::Vec2,
            PropValue::Dirs(_) => PropKind::Dirs,
            PropValue::Cool(_) => PropKind::Cool,
            PropValue::Text(_) => PropKind::Text,
        }
    }

    /// An equal value, built by copying; the bag hands out copies so that
    /// no caller holds a live borrow into it.
    pub fn duplicate(&self) -> (r: Self)
        ensures
            r@ == self@,
    {
        match self {
            PropValue::Int(v) => PropValue::Int(*v),
            PropValue::Bool(v) => PropValue::Bool(*v),
            PropValue::Vec2(v) => PropValue::Vec2(*v),
            PropValue::Dirs(ds) => {
                let mut out: Vec<Direction> = Vec::new();
                let n = ds.len();
                let mut i: usize = 0;
                while i < n
                    invariant
                        i <= n,
                        n == ds@.len(),
                        out@ == ds@.take(i as int),
                    decreases n - i,
                {
                    out.push(ds[i]);
                    proof {
                        assert(out@ =~= ds@.take(i + 1));
                    }
                    i = i + 1;
                }
                proof {
                    assert(ds@.take(n as int) =~= ds@);
                }
                PropValue::Dirs(out)
            },
            PropValue::Cool(c) => PropValue::Cool(*c),
            PropValue::Text(t) => PropValue::Text(*t),
        }
    }
}

/// One entity's property bag, with a `Map` view keyed by name.
#[derive(Debug)]
pub struct PropBag {
    names: Vec<String>,
    vals: Vec<PropValue>,
}

impl PropBag {
    /// The names present, in binding order.
    pub closed spec fn name_seq(&self) -> Seq<Seq<char>> {
        self.names@.map_values(|s: String| s@)
    }

    /// Abstract contents: a finite map from name to tagged value.
    pub closed spec fn view(&self) -> Map<Seq<char>, PropValueView> {
        Map::new(
            |k: Seq<char>| self.name_seq().contains(k),
            |k: Seq<char>| self.vals@[self.name_seq().index_of(k)]@,
        )
    }

    pub closed spec fn wf(&self) -> bool {
        &&& self.names@.len() == self.vals@.len()
        &&& self.name_seq().no_duplicates()
    }

    proof fn lemma_at(&self, i: int)
        requires
            self.wf(),
            0 <= i < self.names@.len(),
        ensures
            self@.contains_key(self.name_seq()[i]),
            self@[self.name_seq()[i]] == self.vals@[i]@,
    {
        let ns = self.name_seq();
        let k = ns[i];
        assert(ns.contains(k));
        let j = ns.index_of(k);
        assert(ns[j] == k);
        if i != j {
            assert(false);
        }
    }

    pub fn new() -> (r: Self)
        ensures
            r.wf(),
            r@ == Map::<Seq<char>, PropValueView>::empty(),
    {
        let r = PropBag { names: Vec::new(), vals: Vec::new() };
        proof {
            assert(r.name_seq() =~= Seq::<Seq<char>>::empty());
            assert(r@ =~= Map::<Seq<char>, PropValueView>::empty());
        }
        r
    }

    fn find(&self, name: &str) -> (r: Option<usize>)
        requires
            self.wf(),
        ensures
            match r {
                Some(i) => i < self.name_seq().len() && self.name_seq()[i as int] == name@,
                None => !self@.contains_key(name@),
            },
    {
        let n = self.names.len();
        let mut i: usize = 0;
        while i < n
            invariant
                self.wf(),
                n == self.names@.len(),
                i <= n,
                forall|j: int| 0 <= j < i ==> self.name_seq()[j] != name@,
            decreases n - i,
        {
            if self.names[i].as_str().eq(name) {
                proof {
                    assert(self.name_seq()[i as int] == self.names@[i as int]@);
                }
                return Some(i);
            }
            proof {
                assert(self.name_seq()[i as int] == self.names@[i as int]@);
            }
            i = i + 1;
        }
        proof {
            assert(!self.name_seq().contains(name@));
        }
        None
    }

    pub fn has(&self, name: &str) -> (r: bool)
        requires
            self.wf(),
        ensures
            r == self@.contains_key(name@),
    {
        match self.find(name) {
            Some(i) => {
                proof {
                    self.lemma_at(i as int);
                }
                true
            },
            None => false,
        }
    }

    pub fn get(&self, name: &str) -> (r: Option<&PropValue>)
        requires
            self.wf(),
        ensures
            match r {
                Some(v) => self@.contains_key(name@) && (*v)@ == self@[name@],
                None => !self@.contains_key(name@),
            },
    {
        match self.find(name) {
            Some(i) => {
                proof {
                    self.lemma_at(i as int);
                }
                Some(&self.vals[i])
            },
            None => None,
        }
    }

    /// Binds `name` to `value`, rebinding freely — a rebound name may
    /// change its type.
    pub fn bind(&mut self, name: String, value: PropValue)
        requires
            old(self).wf(),
        ensures
            final(self).wf(),
            final(self)@ == old(self)@.insert(name@, value@),
    {
        let ghost old_self = *old(self);
        match self.find(name.as_str()) {
            Some(i) => {
                self.vals[i] = value;
                proof {
                    old_self.lemma_at(i as int);
                    let ns = self.name_seq();
                    assert(ns == old_self.name_seq());
                    assert forall|k2: Seq<char>|
                        self@.contains_key(k2)
                        implies #[trigger] self@[k2] == old_self@.insert(name@, value@)[k2] by {
                        let j = ns.index_of(k2);
                        assert(ns.contains(k2));
                        assert(0 <= j < ns.len() && ns[j] == k2);
                        if k2 == name@ {
                            if j != i {
                                assert(false);
                            }
                        } else {
                            assert(j != i);
                            assert(self@[k2] == self.vals@[j]@);
                            old_self.lemma_at(j);
                        }
                    }
                    assert(self@ =~= old_self@.insert(name@, value@));
                }
            },
            None => {
                self.names.push(name);
                self.vals.push(value);
                proof {
                    let ns = self.name_seq();
                    let ons = old_self.name_seq();
                    assert(ns =~= ons.push(name@));
                    assert forall|j: int, l: int|
                        0 <= j < ns.len() && 0 <= l < ns.len() && j != l
                        implies ns[j] != ns[l] by {
                        if j < ons.len() && l < ons.len() {
                        } else if j < ons.len() {
                            assert(ns[l] == name@);
                            if ns[j] == name@ {
                                assert(ons.contains(name@));
                            }
                        } else if l < ons.len() {
                            assert(ns[j] == name@);
                            if ns[l] == name@ {
                                assert(ons.contains(name@));
                            }
                        }
                    }
                    assert(self.wf());
                    assert forall|k2: Seq<char>|
                        self@.contains_key(k2)
                        implies #[trigger] self@[k2] == old_self@.insert(name@, value@)[k2] by {
                        let j = ns.index_of(k2);
                        assert(ns.contains(k2));
                        assert(0 <= j < ns.len() && ns[j] == k2);
                        if k2 == name@ {
                            if j != ons.len() {
                                assert(ons[j] == name@);
                                assert(ons.contains(name@));
                                assert(false);
                            }
                            assert(self@[k2] == self.vals@[j]@);
                        } else {
                            assert(j != ons.len());
                            assert(ons[j] == k2);
                            assert(self@[k2] == self.vals@[j]@);
                            old_self.lemma_at(j);
                        }
                    }
                    assert forall|k2: Seq<char>| self@.contains_key(k2)
                        == old_self@.insert(name@, value@).contains_key(k2) by {
                        if k2 == name@ {
                            assert(ns[ons.len() as int] == name@);
                            assert(ns.contains(name@));
                        } else {
                            if ons.contains(k2) {
                                let j = ons.index_of(k2);
                                assert(ns[j] == k2);
                                assert(ns.contains(k2));
                            }
                            if ns.contains(k2) {
                                let j = ns.index_of(k2);
                                assert(0 <= j < ns.len() && ns[j] == k2);
                                assert(j != ons.len());
                                assert(ons[j] == k2);
                                assert(ons.contains(k2));
                            }
                        }
                    }
                    assert(self@ =~= old_self@.insert(name@, value@));
                }
            },
        }
    }

    /// Unbinds `name`; a no-op when it is absent.
    pub fn unbind(&mut self, name: &str)
        requires
            old(self).wf(),
        ensures
            final(self).wf(),
            final(self)@ == old(self)@.remove(name@),
    {
        let ghost old_self = *old(self);
        match self.find(name) {
            Some(i) => {
                self.names.remove(i);
                self.vals.remove(i);
                proof {
                    let ons = old_self.name_seq();
                    let ns = self.name_seq();
                    assert(self.names@ == old_self.names@.remove(i as int));
                    assert(self.vals@ == old_self.vals@.remove(i as int));
                    old_self.names@.remove_ensures(i as int);
                    old_self.vals@.remove_ensures(i as int);
                    assert(ns =~= ons.remove(i as int)) by {
                        ons.remove_ensures(i as int);
                        assert forall|j: int| 0 <= j < ns.len() implies ns[j] == ons.remove(
                            i as int,
                        )[j] by {
                            let j0 = if j < i { j } else { j + 1 };
                            assert(self.names@[j] == old_self.names@[j0]);
                        }
                    }
                    assert(ns.no_duplicates()) by {
                        ons.remove_ensures(i as int);
                        assert forall|a: int, b: int|
                            0 <= a < ns.len() && 0 <= b < ns.len() && a != b
                            implies ns[a] != ns[b] by {
                            let a0 = if a < i { a } else { a + 1 };
                            let b0 = if b < i { b } else { b + 1 };
                            assert(ns[a] == ons[a0]);
                            assert(ns[b] == ons[b0]);
                        }
                    }
                    assert(self.wf());
                    assert forall|k2: Seq<char>|
                        self@.contains_key(k2)
                        implies old_self@.remove(name@).contains_key(k2)
                            && #[trigger] self@[k2] == old_self@.remove(name@)[k2] by {
                        let j = ns.index_of(k2);
                        assert(ns.contains(k2));
                        assert(0 <= j < ns.len() && ns[j] == k2);
                        let j0 = if j < i { j } else { j + 1 };
                        assert(ons[j0] == k2);
                        assert(ons.contains(k2));
                        assert(self@[k2] == self.vals@[j]@);
                        assert(self.vals@[j] == old_self.vals@[j0]);
                        old_self.lemma_at(j0);
                        assert(k2 != name@);
                    }
                    assert forall|k2: Seq<char>| old_self@.remove(name@).contains_key(k2)
                        implies self@.contains_key(k2) by {
                        assert(ons.contains(k2));
                        let j0 = ons.index_of(k2);
                        assert(0 <= j0 < ons.len() && ons[j0] == k2);
                        assert(j0 != i);
                        let j = if j0 < i { j0 } else { j0 - 1 };
                        assert(ns[j] == ons[j0]);
                        assert(ns.contains(k2));
                    }
                    assert(self@ =~= old_self@.remove(name@));
                }
            },
            None => {
                proof {
                    assert(self@ =~= old_self@.remove(name@));
                }
            },
        }
    }
}

} // verus!
