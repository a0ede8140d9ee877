//! A map from symbols to values with nested scopes.
//!
//! The map is a stack of frames. A binding is always made in the innermost
//! frame, where it hides the bindings of the same symbol further out without
//! destroying them; leaving a scope drops the innermost frame and what it
//! bound. The outermost frame is there from the start and is never dropped.

use vstd::prelude::*;
use crate::name::Symbol;

verus! {

/// The innermost binding of `key` in a stack of frames that is written
/// outermost first.
pub open spec fn lookup<V>(frames: Seq<Map<Symbol, V>>, key: Symbol) -> Option<V>
    decreases frames.len(),
{
    if frames.len() == 0 {
        None
    } else if frames.last().contains_key(key) {
        Some(frames.last()[key])
    } else {
        lookup(frames.drop_last(), key)
    }
}

/// The index of the innermost frame that binds `key`, or -1 if none does.
pub open spec fn nearest<V>(frames: Seq<Map<Symbol, V>>, key: Symbol) -> int
    decreases frames.len(),
{
    if frames.len() == 0 {
        -1
    } else if frames.last().contains_key(key) {
        frames.len() - 1
    } else {
        nearest(frames.drop_last(), key)
    }
}

/// The frames after `key` is bound to `value` in the innermost one.
pub open spec fn bind<V>(frames: Seq<Map<Symbol, V>>, key: Symbol, value: V) -> Seq<
    Map<Symbol, V>,
> {
    frames.update(frames.len() - 1, frames.last().insert(key, value))
}

/// The frames after the innermost binding of `key` is given the value
/// `value`; the same frames if nothing binds `key`.
pub open spec fn rebind<V>(frames: Seq<Map<Symbol, V>>, key: Symbol, value: V) -> Seq<
    Map<Symbol, V>,
> {
    let i = nearest(frames, key);
    if i < 0 {
        frames
    } else {
        frames.update(i, frames[i].insert(key, value))
    }
}

/// What `nearest` says of `lookup`: the frame it names holds the innermost
/// binding of `key`, and no frame further in binds `key`.
pub proof fn lemma_nearest<V>(frames: Seq<Map<Symbol, V>>, key: Symbol)
    ensures
        -1 <= nearest(frames, key) < frames.len(),
        nearest(frames, key) >= 0 <==> lookup(frames, key) is Some,
        nearest(frames, key) >= 0 ==> frames[nearest(frames, key)].contains_key(key) && lookup(
            frames,
            key,
        ) == Some(frames[nearest(frames, key)][key]),
        forall|j: int|
            nearest(frames, key) < j < frames.len() ==> !(#[trigger] frames[j]).contains_key(key),
    decreases frames.len(),
{
    if frames.len() > 0 {
        lemma_nearest(frames.drop_last(), key);
        assert forall|j: int| nearest(frames, key) < j < frames.len() implies !(
        #[trigger] frames[j]).contains_key(key) by {
            if j < frames.len() - 1 {
                assert(frames.drop_last()[j] == frames[j]);
            }
        }
    }
}

/// The frames that a history of scope entries (`None`) and bindings
/// (`Some`) leaves behind.
pub closed spec fn frames_of<V>(entries: Seq<Option<(Symbol, V)>>) -> Seq<Map<Symbol, V>>
    decreases entries.len(),
{
    if entries.len() == 0 {
        seq![Map::empty()]
    } else {
        let rest = frames_of(entries.drop_last());
        match entries.last() {
            None => rest.push(Map::empty()),
            Some((k, v)) => bind(rest, k, v),
        }
    }
}

/// The value of the last binding of `key` in the history.
spec fn scan<V>(entries: Seq<Option<(Symbol, V)>>, key: Symbol) -> Option<V>
    decreases entries.len(),
{
    if entries.len() == 0 {
        None
    } else {
        match entries.last() {
            Some((k, v)) if k == key => Some(v),
            _ => scan(entries.drop_last(), key),
        }
    }
}

/// The position of the last binding of `key` in the history, or -1.
spec fn scan_index<V>(entries: Seq<Option<(Symbol, V)>>, key: Symbol) -> int
    decreases entries.len(),
{
    if entries.len() == 0 {
        -1
    } else {
        match entries.last() {
            Some((k, v)) if k == key => entries.len() - 1,
            _ => scan_index(entries.drop_last(), key),
        }
    }
}

/// Whether `key` was bound since the last scope entry.
spec fn scan_frame<V>(entries: Seq<Option<(Symbol, V)>>, key: Symbol) -> bool
    decreases entries.len(),
{
    if entries.len() == 0 {
        false
    } else {
        match entries.last() {
            None => false,
            Some((k, v)) => k == key || scan_frame(entries.drop_last(), key),
        }
    }
}

/// A history leaves at least the outermost frame.
proof fn lemma_frames_nonempty<V>(entries: Seq<Option<(Symbol, V)>>)
    ensures
        frames_of(entries).len() >= 1,
    decreases entries.len(),
{
    if entries.len() > 0 {
        lemma_frames_nonempty(entries.drop_last());
    }
}

/// Looking a key up in the frames is scanning the history backwards.
proof fn lemma_scan<V>(entries: Seq<Option<(Symbol, V)>>, key: Symbol)
    ensures
        lookup(frames_of(entries), key) == scan(entries, key),
        frames_of(entries).last().contains_key(key) == scan_frame(entries, key),
    decreases entries.len(),
{
    lemma_frames_nonempty(entries);
    let frames = frames_of(entries);
    if entries.len() == 0 {
        assert(frames.drop_last().len() == 0);
        assert(lookup(frames.drop_last(), key) is None);
        assert(!frames.last().contains_key(key));
    } else {
        let rest = frames_of(entries.drop_last());
        lemma_frames_nonempty(entries.drop_last());
        lemma_scan(entries.drop_last(), key);
        match entries.last() {
            None => {
                assert(frames.drop_last() =~= rest);
                assert(!frames.last().contains_key(key));
            },
            Some((k, v)) => {
                assert(frames.drop_last() =~= rest.drop_last());
                assert(frames.last() == rest.last().insert(k, v));
                if k != key {
                    assert(frames.last().contains_key(key) == rest.last().contains_key(key));
                    if rest.last().contains_key(key) {
                        assert(frames.last()[key] == rest.last()[key]);
                    }
                }
            },
        }
    }
}

/// `scan_index` points at the binding whose value `scan` returns.
proof fn lemma_scan_index<V>(entries: Seq<Option<(Symbol, V)>>, key: Symbol)
    ensures
        scan_index(entries, key) < entries.len(),
        scan_index(entries, key) >= 0 <==> scan(entries, key) is Some,
        scan_index(entries, key) >= 0 ==> (entries[scan_index(entries, key)] matches Some((k, v))
            && k == key && scan(entries, key) == Some(v)),
    decreases entries.len(),
{
    if entries.len() > 0 {
        lemma_scan_index(entries.drop_last(), key);
    }
}

/// Replacing the value of the last binding of `key` in the history replaces
/// the innermost binding of `key` in the frames.
proof fn lemma_rebind<V>(entries: Seq<Option<(Symbol, V)>>, key: Symbol, value: V)
    requires
        scan_index(entries, key) >= 0,
    ensures
        frames_of(entries.update(scan_index(entries, key), Some((key, value)))) == rebind(
            frames_of(entries),
            key,
            value,
        ),
        nearest(frames_of(entries), key) >= 0,
    decreases entries.len(),
{
    assert(entries.len() > 0);
    let i = scan_index(entries, key);
    let changed = entries.update(i, Some((key, value)));
    let init = entries.drop_last();
    let rest = frames_of(init);
    lemma_frames_nonempty(init);
    lemma_scan_index(entries, key);
    lemma_scan(init, key);
    if i == entries.len() - 1 {
        assert(changed.drop_last() =~= init);
        let old_value = entries.last().unwrap().1;
        assert(frames_of(entries) == bind(rest, key, old_value));
        assert(frames_of(changed) == bind(rest, key, value));
        assert(bind(rest, key, value) =~~= rebind(bind(rest, key, old_value), key, value));
    } else {
        lemma_rebind(init, key, value);
        assert(changed.drop_last() =~= init.update(i, Some((key, value))));
        assert(changed.last() == entries.last());
        let rest2 = rebind(rest, key, value);
        let j = nearest(rest, key);
        lemma_nearest(rest, key);
        match entries.last() {
            None => {
                assert(rest.push(Map::empty()).drop_last() =~= rest);
                assert(rest2.push(Map::empty()) =~~= rebind(rest.push(Map::empty()), key, value));
            },
            Some((k, v)) => {
                assert(k != key);
                assert(bind(rest, k, v).drop_last() =~= rest.drop_last());
                if j == rest.len() - 1 {
                    assert(bind(rest2, k, v) =~~= rebind(bind(rest, k, v), key, value)) by {
                        assert(rest.last().insert(key, value).insert(k, v) =~= rest.last().insert(
                            k,
                            v,
                        ).insert(key, value));
                    }
                } else {
                    assert(bind(rest2, k, v) =~~= rebind(bind(rest, k, v), key, value));
                }
            },
        }
    }
}

/// A map from symbols to values of type `V`, with nested scopes.
///
/// Its view is the stack of frames, outermost first; it is never empty.
pub struct ScopedMap<V> {
    entries: Vec<Option<(Symbol, V)>>,
}

impl<V> View for ScopedMap<V> {
    type V = Seq<Map<Symbol, V>>;

    closed spec fn view(&self) -> Seq<Map<Symbol, V>> {
        frames_of(self.entries@)
    }
}

impl<V> ScopedMap<V> {
    /// A map with one frame that binds nothing.
    pub fn new() -> (r: ScopedMap<V>)
        ensures
            r@ == seq![Map::<Symbol, V>::empty()],
    {
        let r = ScopedMap { entries: Vec::new() };
        assert(r.entries@.len() == 0);
        r
    }

    /// The outermost frame is always there.
    pub proof fn lemma_depth(&self)
        ensures
            self@.len() >= 1,
    {
        lemma_frames_nonempty(self.entries@);
    }

    /// Opens a frame that binds nothing.
    pub fn enter_scope(&mut self)
        ensures
            final(self)@ == old(self)@.push(Map::empty()),
    {
        self.entries.push(None);
        assert(self.entries@.drop_last() =~= old(self).entries@);
    }

    /// Drops the innermost frame.
    pub fn exit_scope(&mut self)
        requires
            old(self)@.len() > 1,
        ensures
            final(self)@ == old(self)@.drop_last(),
    {
        let ghost before = self@;
        loop
            invariant_except_break
                self@.len() == before.len(),
                self@.drop_last() == before.drop_last(),
            invariant
                before.len() > 1,
            ensures
                self@ == before.drop_last(),
            decreases self.entries.len(),
        {
            let ghost entries = self.entries@;
            proof {
                lemma_frames_nonempty(entries.drop_last());
            }
            match self.entries.pop() {
                Some(Some(_)) => {
                    assert(self.entries@ =~= entries.drop_last());
                    assert(frames_of(entries).drop_last() =~= frames_of(
                        entries.drop_last(),
                    ).drop_last());
                },
                Some(None) => {
                    assert(self.entries@ =~= entries.drop_last());
                    assert(frames_of(entries).drop_last() =~= frames_of(entries.drop_last()));
                    break ;
                },
                None => {
                    break ;
                },
            }
        }
    }

    /// Binds `key` to `value` in the innermost frame.
    pub fn insert(&mut self, key: Symbol, value: V)
        ensures
            final(self)@ == bind(old(self)@, key, value),
    {
        self.entries.push(Some((key, value)));
        assert(self.entries@.drop_last() =~= old(self).entries@);
    }

    /// Whether the innermost frame binds `key`.
    pub fn in_current_scope(&self, key: &Symbol) -> (r: bool)
        ensures
            r == self@.last().contains_key(*key),
    {
        proof {
            lemma_scan(self.entries@, *key);
            lemma_frames_nonempty(self.entries@);
        }
        let mut i: usize = self.entries.len();
        assert(self.entries@.take(i as int) =~= self.entries@);
        while i > 0
            invariant
                i <= self.entries.len(),
                self@.len() >= 1,
                self@.last().contains_key(*key) == scan_frame(self.entries@, *key),
                scan_frame(self.entries@, *key) == scan_frame(self.entries@.take(i as int), *key),
            decreases i,
        {
            i -= 1;
            assert(self.entries@.take(i + 1).drop_last() =~= self.entries@.take(i as int));
            assert(self.entries@.take(i + 1).last() == self.entries@[i as int]);
            match &self.entries[i] {
                Some(pair) => {
                    if pair.0 == *key {
                        return true;
                    }
                },
                None => {
                    return false;
                },
            }
        }
        false
    }

    /// The position of the last binding of `key` in the history.
    fn position(&self, key: &Symbol) -> (r: Option<usize>)
        ensures
            match r {
                Some(i) => i == scan_index(self.entries@, *key),
                None => scan_index(self.entries@, *key) < 0,
            },
    {
        let mut i: usize = self.entries.len();
        assert(self.entries@.take(i as int) =~= self.entries@);
        while i > 0
            invariant
                i <= self.entries.len(),
                scan_index(self.entries@, *key) == scan_index(self.entries@.take(i as int), *key),
            decreases i,
        {
            i -= 1;
            assert(self.entries@.take(i + 1).drop_last() =~= self.entries@.take(i as int));
            assert(self.entries@.take(i + 1).last() == self.entries@[i as int]);
            match &self.entries[i] {
                Some(pair) => {
                    if pair.0 == *key {
                        return Some(i);
                    }
                },
                None => {},
            }
        }
        None
    }

    /// The innermost binding of `key`.
    pub fn find(&self, key: &Symbol) -> (r: Option<&V>)
        ensures
            match r {
                Some(v) => lookup(self@, *key) == Some(*v),
                None => lookup(self@, *key) is None,
            },
    {
        proof {
            lemma_scan(self.entries@, *key);
            lemma_scan_index(self.entries@, *key);
        }
        match self.position(key) {
            Some(i) => match &self.entries[i] {
                Some(pair) => Some(&pair.1),
                None => None,
            },
            None => None,
        }
    }

    /// The innermost binding of `key`, to be changed in place.
    pub fn find_mut(&mut self, key: &Symbol) -> (r: Option<&mut V>)
        ensures
            match r {
                Some(v) => lookup(old(self)@, *key) == Some(*v) && final(self)@ == rebind(
                    old(self)@,
                    *key,
                    *final(v),
                ),
                None => lookup(old(self)@, *key) is None && final(self)@ == old(self)@,
            },
    {
        proof {
            lemma_scan(self.entries@, *key);
            lemma_scan_index(self.entries@, *key);
        }
        match self.position(key) {
            Some(i) => {
                let slot = &mut self.entries[i];
                match slot {
                    Some(pair) => {
                        let value = &mut pair.1;
                        proof {
                            lemma_rebind(old(self).entries@, *key, *final(value));
                        }
                        Some(value)
                    },
                    None => None,
                }
            },
            None => None,
        }
    }
}

} // verus!
