//! A toggle manager: a fixed set of named boolean flags, stored bit-packed,
//! addressed either by ordinal (the position of a name in the declared order)
//! or by display name. Name lookups that miss are tolerated, so a
//! configuration source may carry stale or forward-compatible keys; ordinal
//! accesses out of range are contract violations, excluded by the callers'
//! obligations, and the total `try_get` / `try_set` variants answer them
//! without mutating anything, so an unverified caller can fail loudly.

use vstd::prelude::*;

mod bits;
pub mod load;
pub mod render;
pub mod text;

verus! {

use crate::bits::{Bits, bits_of, bits_repeat, bits_len, bits_get, bits_set, bits_fill};
use crate::text::str_eq;

/// The mathematical content of a toggle container: the declared display
/// names, in order, and the boolean value stored for each ordinal.
#[verifier::ext_equal]
pub ghost struct ToggleView {
    pub names: Seq<Seq<char>>,
    pub values: Seq<bool>,
}

impl ToggleView {
    /// One stored value per declared name, for the lifetime of the container.
    pub open spec fn wf(self) -> bool {
        self.values.len() == self.names.len()
    }
}

/// The ordinal of the first name in `names` equal to `name`, if any.
pub open spec fn find_ordinal(names: Seq<Seq<char>>, name: Seq<char>) -> Option<int>
    decreases names.len(),
{
    if names.len() == 0 {
        None
    } else if names[0] == name {
        Some(0int)
    } else {
        match find_ordinal(names.drop_first(), name) {
            Some(i) => Some(i + 1),
            None => None,
        }
    }
}

/// Wherever `find_ordinal` answers, the answer is the first ordinal whose
/// name matches; where it does not, no name matches at all.
pub proof fn lemma_find_ordinal_props(names: Seq<Seq<char>>, name: Seq<char>)
    ensures
        match find_ordinal(names, name) {
            Some(k) => 0 <= k < names.len() && names[k] == name && (forall|j: int|
                0 <= j < k ==> names[j] != name),
            None => forall|j: int| 0 <= j < names.len() ==> names[j] != name,
        },
    decreases names.len(),
{
    if names.len() > 0 && names[0] != name {
        let rest = names.drop_first();
        lemma_find_ordinal_props(rest, name);
        assert(forall|j: int| 1 <= j < names.len() ==> names[j] == rest[j - 1]);
    }
}

/// `find_ordinal` answers `Some(i)` exactly when `i` is the first matching
/// position, and `None` when a scan of the whole list found no match.
proof fn lemma_find_ordinal_at(names: Seq<Seq<char>>, name: Seq<char>, i: int)
    requires
        0 <= i <= names.len(),
        forall|j: int| 0 <= j < i ==> names[j] != name,
        i < names.len() ==> names[i] == name,
    ensures
        i < names.len() ==> find_ordinal(names, name) == Some(i),
        i == names.len() ==> find_ordinal(names, name) is None,
    decreases i,
{
    if i == 0 {
    } else {
        assert(names[0] != name);
        let rest = names.drop_first();
        assert(forall|j: int| 0 <= j < i - 1 ==> rest[j] == names[j + 1]);
        assert(i - 1 < rest.len() ==> rest[i - 1] == names[i]);
        lemma_find_ordinal_at(rest, name, i - 1);
    }
}

/// The value that a mapping, given as (key, value) pairs, holds for `key`:
/// the value of the first pair whose key matches, if any.
pub open spec fn map_value(init: Seq<(Seq<char>, bool)>, key: Seq<char>) -> Option<bool>
    decreases init.len(),
{
    if init.len() == 0 {
        None
    } else if init[0].0 == key {
        Some(init[0].1)
    } else {
        map_value(init.drop_first(), key)
    }
}

/// `map_value` answers from the first matching pair, and `None` when a scan
/// of the whole mapping found no match.
proof fn lemma_map_value_at(init: Seq<(Seq<char>, bool)>, key: Seq<char>, i: int)
    requires
        0 <= i <= init.len(),
        forall|j: int| 0 <= j < i ==> init[j].0 != key,
        i < init.len() ==> init[i].0 == key,
    ensures
        i < init.len() ==> map_value(init, key) == Some(init[i].1),
        i == init.len() ==> map_value(init, key) is None,
    decreases i,
{
    if i > 0 {
        let rest = init.drop_first();
        assert(forall|j: int| 1 <= j < init.len() ==> init[j] == rest[j - 1]);
        lemma_map_value_at(rest, key, i - 1);
    }
}

/// The state after a bulk reset from a mapping: every ordinal whose name the
/// mapping holds takes the mapping's value, and every other ordinal is false,
/// whatever the values were before.
pub open spec fn set_all_view(v: ToggleView, init: Seq<(Seq<char>, bool)>) -> ToggleView {
    ToggleView {
        names: v.names,
        values: Seq::new(
            v.names.len(),
            |i: int|
                match map_value(init, v.names[i]) {
                    Some(b) => b,
                    None => false,
                },
        ),
    }
}

/// The state after setting `name` to `value`: the first matching ordinal's
/// entry is replaced, and a name that matches nothing changes nothing.
pub open spec fn set_by_name_view(v: ToggleView, name: Seq<char>, value: bool) -> ToggleView {
    match find_ordinal(v.names, name) {
        Some(k) => ToggleView { names: v.names, values: v.values.update(k, value) },
        None => v,
    }
}

/// Law: setting by a name that matches no declared toggle is a no-op — the
/// whole state, every stored value included, is unchanged.
pub proof fn lemma_set_by_name_unknown(v: ToggleView, name: Seq<char>, value: bool)
    requires
        forall|j: int| 0 <= j < v.names.len() ==> v.names[j] != name,
    ensures
        set_by_name_view(v, name, value) == v,
{
    lemma_find_ordinal_props(v.names, name);
}

/// Law: setting by a name that matches exactly the ordinal `k` stores the
/// value at `k` and leaves every other ordinal's value unchanged.
pub proof fn lemma_set_by_name_unique_match(v: ToggleView, name: Seq<char>, value: bool, k: int)
    requires
        v.wf(),
        0 <= k < v.names.len(),
        v.names[k] == name,
        forall|j: int| 0 <= j < v.names.len() && j != k ==> v.names[j] != name,
    ensures
        set_by_name_view(v, name, value).names == v.names,
        set_by_name_view(v, name, value).values[k] == value,
        forall|j: int|
            0 <= j < v.values.len() && j != k ==> set_by_name_view(v, name, value).values[j]
                == v.values[j],
{
    lemma_find_ordinal_props(v.names, name);
}

/// Law: a bulk reset is idempotent — applying the same mapping twice leaves
/// the same state as applying it once, since the outcome depends only on the
/// declared names and the mapping, and the names do not move.
pub proof fn lemma_set_all_idempotent(v: ToggleView, init: Seq<(Seq<char>, bool)>)
    ensures
        set_all_view(set_all_view(v, init), init) == set_all_view(v, init),
{
    assert(set_all_view(set_all_view(v, init), init) =~= set_all_view(v, init));
}

/// The value that the mapping `init`, given as (key, value) pairs, holds for
/// `key`, by a scan for the first matching pair.
fn lookup(init: &Vec<(String, bool)>, key: &str) -> (r: Option<bool>)
    ensures
        r == map_value(init.deep_view(), key@),
{
    let n = init.len();
    let mut i: usize = 0;
    while i < n
        invariant
            i <= n,
            n == init@.len(),
            forall|j: int| 0 <= j < i ==> init.deep_view()[j].0 != key@,
        decreases n - i,
    {
        if str_eq(init[i].0.as_str(), key) {
            proof {
                assert(init.deep_view()[i as int].0 == key@);
                lemma_map_value_at(init.deep_view(), key@, i as int);
            }
            return Some(init[i].1);
        }
        i = i + 1;
    }
    proof {
        lemma_map_value_at(init.deep_view(), key@, n as int);
    }
    None
}

/// Contains the toggle value for each named flag, addressed by ordinal.
pub struct EnumToggles {
    names: Vec<String>,
    toggles_value: Bits,
}

impl View for EnumToggles {
    type V = ToggleView;

    closed spec fn view(&self) -> ToggleView {
        ToggleView { names: self.names.deep_view(), values: bits_of(self.toggles_value) }
    }
}

impl EnumToggles {
    /// The container's invariant: as many stored bits as declared names.
    pub open spec fn wf(&self) -> bool {
        self@.wf()
    }

    /// Create a new instance of `EnumToggles` with all toggles set to false,
    /// one per entry of `names` (the display names in declared order).
    ///
    /// This operation is *O*(*n*).
    pub fn new(names: Vec<String>) -> (r: EnumToggles)
        ensures
            r.wf(),
            r@.names == names.deep_view(),
            r@.values == Seq::new(names.deep_view().len(), |i: int| false),
            forall|i: int| 0 <= i < r@.values.len() ==> r@.values[i] == false,
    {
        let n = names.len();
        EnumToggles { names, toggles_value: bits_repeat(false, n) }
    }

    /// The number of stored toggle values.
    pub fn len(&self) -> (n: usize)
        ensures
            n == self@.values.len(),
    {
        bits_len(&self.toggles_value)
    }

    /// Get the bool value of a toggle by toggle id.
    ///
    /// This operation is *O*(*1*). An id outside `[0, len)` is a contract
    /// violation: every caller must stay in range.
    pub fn get(&self, toggle_id: usize) -> (r: bool)
        requires
            toggle_id < self@.values.len(),
        ensures
            r == self@.values[toggle_id as int],
    {
        bits_get(&self.toggles_value, toggle_id)
    }

    /// Set the bool value of a toggle by toggle id.
    ///
    /// This operation is *O*(*1*). An id outside `[0, len)` is a contract
    /// violation: every caller must stay in range, and no stored value moves
    /// but the one addressed.
    pub fn set(&mut self, toggle_id: usize, value: bool)
        requires
            toggle_id < old(self)@.values.len(),
        ensures
            final(self)@.names == old(self)@.names,
            final(self)@.values == old(self)@.values.update(toggle_id as int, value),
            final(self)@.values[toggle_id as int] == value,
            forall|j: int|
                0 <= j < old(self)@.values.len() && j != toggle_id ==> final(self)@.values[j]
                    == old(self)@.values[j],
    {
        bits_set(&mut self.toggles_value, toggle_id, value);
    }

    /// Total variant of `get`: the stored value for an ordinal in range, and
    /// `None` — never a silent default — for one out of range, so a caller
    /// can fail loudly with a diagnostic.
    pub fn try_get(&self, toggle_id: usize) -> (r: Option<bool>)
        ensures
            match r {
                Some(b) => toggle_id < self@.values.len() && b == self@.values[toggle_id as int],
                None => toggle_id >= self@.values.len(),
            },
    {
        if toggle_id < self.len() {
            Some(self.get(toggle_id))
        } else {
            None
        }
    }

    /// Total variant of `set`: stores `value` at an ordinal in range and
    /// reports true; an ordinal out of range — a mismatch between a declared
    /// discriminant and its position — mutates nothing at all and reports
    /// false, so a caller can fail loudly with a diagnostic.
    pub fn try_set(&mut self, toggle_id: usize, value: bool) -> (ok: bool)
        requires
            old(self).wf(),
        ensures
            final(self).wf(),
            ok == (toggle_id < old(self)@.values.len()),
            final(self)@.names == old(self)@.names,
            ok ==> final(self)@.values == old(self)@.values.update(toggle_id as int, value),
            !ok ==> final(self)@ == old(self)@,
    {
        if toggle_id < self.len() {
            self.set(toggle_id, value);
            true
        } else {
            false
        }
    }

    /// The ordinal of the first declared name equal to `toggle_name`, if any.
    fn find_index(&self, toggle_name: &str) -> (r: Option<usize>)
        ensures
            match r {
                Some(i) => find_ordinal(self@.names, toggle_name@) == Some(i as int),
                None => find_ordinal(self@.names, toggle_name@) is None,
            },
    {
        let n = self.names.len();
        let mut i: usize = 0;
        while i < n
            invariant
                i <= n,
                n == self@.names.len(),
                forall|j: int| 0 <= j < i ==> self@.names[j] != toggle_name@,
            decreases n - i,
        {
            if str_eq(self.names[i].as_str(), toggle_name) {
                proof {
                    lemma_find_ordinal_at(self@.names, toggle_name@, i as int);
                }
                return Some(i);
            }
            i = i + 1;
        }
        proof {
            lemma_find_ordinal_at(self@.names, toggle_name@, n as int);
        }
        None
    }

    /// Set the bool value of all toggles based on a mapping, given as
    /// (name, value) pairs: every entry is first cleared to false, then every
    /// toggle whose name the mapping holds takes the mapping's value.
    ///
    /// This operation is *O*(*n²*).
    pub fn set_all(&mut self, init: &Vec<(String, bool)>)
        requires
            old(self).wf(),
        ensures
            final(self).wf(),
            final(self)@ == set_all_view(old(self)@, init.deep_view()),
    {
        let ghost target = set_all_view(old(self)@, init.deep_view());
        bits_fill(&mut self.toggles_value, false);
        let n = self.names.len();
        let mut i: usize = 0;
        while i < n
            invariant
                i <= n,
                self.wf(),
                n == self@.names.len(),
                self@.names == old(self)@.names,
                target == set_all_view(old(self)@, init.deep_view()),
                target.names == self@.names,
                target.values.len() == n,
                forall|j: int| 0 <= j < i ==> self@.values[j] == target.values[j],
                forall|j: int| i <= j < n ==> self@.values[j] == false,
            decreases n - i,
        {
            let looked_up = lookup(init, self.names[i].as_str());
            match looked_up {
                Some(b) => {
                    self.set(i, b);
                },
                None => {},
            }
            i = i + 1;
        }
        proof {
            assert(self@.values =~= target.values);
            assert(self@ =~= target);
        }
    }

    /// Set the bool value of a toggle by its name. A name that matches no
    /// declared toggle is tolerated and changes nothing.
    ///
    /// This operation is *O*(*n*).
    pub fn set_by_name(&mut self, toggle_name: &str, value: bool)
        requires
            old(self).wf(),
        ensures
            final(self).wf(),
            final(self)@ == set_by_name_view(old(self)@, toggle_name@, value),
            final(self)@.names == old(self)@.names,
    {
        let found = self.find_index(toggle_name);
        match found {
            Some(toggle_id) => {
                proof {
                    lemma_find_ordinal_props(self@.names, toggle_name@);
                }
                self.set(toggle_id, value);
                proof {
                    assert(self@ =~= set_by_name_view(old(self)@, toggle_name@, value));
                }
            },
            None => {},
        }
    }
}

} // verus!
