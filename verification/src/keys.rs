//! Key bindings: a key with the modifiers held, the actions they run, and
//! the table that maps bindings to actions.
use std::collections::BTreeMap;
use vstd::prelude::*;
use vstd::std_specs::iter::IteratorSpec;
use crate::gui_model::{KeyActionId, Modifiers};
use crate::strings::{lex_le, str_eq, str_le};

verus! {

broadcast use {vstd::std_specs::btree::group_btree_axioms, vstd::laws_cmp::group_laws_cmp};

/// A key (by its key code) and the modifiers held with it: bit 1 ctrl,
/// bit 2 alt, bit 4 shift, bit 8 meta.
#[derive(Debug, Clone, Copy, PartialEq, Eq, Structural)]
pub struct KeyBinding {
    pub modifiers: u8,
    pub key: u32,
}

pub open spec fn modifier_bits(m: Modifiers) -> u8 {
    (if m.ctrl { 1u8 } else { 0u8 }) | (if m.alt { 2u8 } else { 0u8 }) | (if m.shift { 4u8 } else { 0u8 })
        | (if m.logo { 8u8 } else { 0u8 })
}

impl KeyBinding {
    /// The binding for a key pressed with the modifiers that are held.
    pub fn new(modifiers: &Modifiers, key: u32) -> (r: KeyBinding)
        ensures
            r.modifiers == modifier_bits(*modifiers),
            r.key == key,
    {
        KeyBinding {
            modifiers: (if modifiers.ctrl { 1u8 } else { 0u8 }) | (if modifiers.alt { 2u8 } else { 0u8 })
                | (if modifiers.shift { 4u8 } else { 0u8 }) | (if modifiers.logo { 8u8 } else { 0u8 }),
            key,
        }
    }

    /// Ctrl and the key.
    pub fn ctrl(key: u32) -> (r: KeyBinding)
        ensures
            r.modifiers == 1,
            r.key == key,
    {
        KeyBinding { modifiers: 1, key }
    }

    /// Ctrl, shift and the key.
    pub fn ctrl_shift(key: u32) -> (r: KeyBinding)
        ensures
            r.modifiers == 5,
            r.key == key,
    {
        assert(1u8 | 4u8 == 5u8) by (bit_vector);
        KeyBinding { modifiers: 1 | 4, key }
    }

    pub fn get_ctrl(&self) -> (r: bool)
        ensures
            r == (self.modifiers & 1 != 0),
    {
        self.modifiers & 1 != 0
    }

    pub fn get_alt(&self) -> (r: bool)
        ensures
            r == (self.modifiers & 2 != 0),
    {
        self.modifiers & 2 != 0
    }

    pub fn get_shift(&self) -> (r: bool)
        ensures
            r == (self.modifiers & 4 != 0),
    {
        self.modifiers & 4 != 0
    }

    pub fn get_meta(&self) -> (r: bool)
        ensures
            r == (self.modifiers & 8 != 0),
    {
        self.modifiers & 8 != 0
    }
}

/// A binding remembers exactly which modifiers were held.
pub proof fn lemma_binding_modifiers(m: Modifiers)
    ensures
        (modifier_bits(m) & 1 != 0) == m.ctrl,
        (modifier_bits(m) & 2 != 0) == m.alt,
        (modifier_bits(m) & 4 != 0) == m.shift,
        (modifier_bits(m) & 8 != 0) == m.logo,
{
    let c: u8 = if m.ctrl { 1u8 } else { 0u8 };
    let a: u8 = if m.alt { 2u8 } else { 0u8 };
    let s: u8 = if m.shift { 4u8 } else { 0u8 };
    let l: u8 = if m.logo { 8u8 } else { 0u8 };
    assert(((c | a | s | l) & 1 != 0) == (c == 1) && ((c | a | s | l) & 2 != 0) == (a == 2)
        && ((c | a | s | l) & 4 != 0) == (s == 4) && ((c | a | s | l) & 8 != 0) == (l == 8)) by (bit_vector)
        requires
            c == 0 || c == 1,
            a == 0 || a == 2,
            s == 0 || s == 4,
            l == 0 || l == 8,
    ;
}

/// The order of bindings as tuples: by modifiers, then by key.
pub open spec fn key_lt(a: (u8, u32), b: (u8, u32)) -> bool {
    a.0 < b.0 || (a.0 == b.0 && a.1 < b.1)
}

/// Whether `k` is the largest of the bindings that run action `a` (the one
/// a walk through the table in key order meets last).
pub open spec fn is_shown_key(m: Map<(u8, u32), usize>, a: usize, k: (u8, u32)) -> bool {
    &&& m.contains_key(k)
    &&& m[k] == a
    &&& forall|k2: (u8, u32)| #[trigger] m.contains_key(k2) && m[k2] == a ==> !key_lt(k, k2)
}

/// The binding the settings show for action `a`: the largest that runs it.
pub open spec fn shown_binding(m: Map<(u8, u32), usize>, a: usize) -> Option<KeyBinding> {
    if exists|k: (u8, u32)| is_shown_key(m, a, k) {
        let k = choose|k: (u8, u32)| is_shown_key(m, a, k);
        Some(KeyBinding { modifiers: k.0, key: k.1 })
    } else {
        None
    }
}

/// The first position at or after `i` whose action's category comes after
/// `c` (the length where there is none).
pub open spec fn first_after(t: Seq<(usize, Option<KeyBinding>)>, cats: Seq<Seq<char>>, c: Seq<char>, i: int) -> int
    decreases t.len() - i,
{
    if i >= t.len() {
        t.len() as int
    } else if lex_le(c, cats[t[i].0 as int]) && c != cats[t[i].0 as int] {
        i
    } else {
        first_after(t, cats, c, i + 1)
    }
}

/// The entries ordered by the categories of their actions, entries of one
/// category in the order given (a stable sort, by insertion).
pub open spec fn by_category(s: Seq<(usize, Option<KeyBinding>)>, cats: Seq<Seq<char>>) -> Seq<(usize, Option<KeyBinding>)>
    decreases s.len(),
{
    if s.len() == 0 {
        s
    } else {
        let t = by_category(s.drop_last(), cats);
        t.insert(first_after(t, cats, cats[s.last().0 as int], 0), s.last())
    }
}

pub open spec fn categories(actions: Seq<KeyActionInfo>) -> Seq<Seq<char>> {
    actions.map_values(|a: KeyActionInfo| a.category@)
}

/// The settings' list of key actions: each action's id with the binding
/// shown for it, ordered by category.
pub open spec fn settings_list(m: Map<(u8, u32), usize>, actions: Seq<KeyActionInfo>) -> Seq<(usize, Option<KeyBinding>)> {
    by_category(Seq::new(actions.len(), |i: int| (i as usize, shown_binding(m, i as usize))), categories(actions))
}

/// What the walk over the first `j` keys found for action `a`: its largest
/// binding among them, or none.
pub open spec fn found_so_far(keys: Seq<(u8, u32)>, m: Map<(u8, u32), usize>, j: int, a: usize, f: Option<KeyBinding>) -> bool {
    match f {
        Some(b) => exists|q: int| #![trigger keys[q]] 0 <= q < j && keys[q] == key_of(b) && m[keys[q]] == a
            && forall|q2: int| 0 <= q2 < j && #[trigger] m[keys[q2]] == a ==> !key_lt(key_of(b), keys[q2]),
        None => forall|q: int| 0 <= q < j ==> #[trigger] m[keys[q]] != a,
    }
}

proof fn lemma_first_after_bounds(t: Seq<(usize, Option<KeyBinding>)>, cats: Seq<Seq<char>>, c: Seq<char>, i: int)
    requires
        0 <= i <= t.len(),
    ensures
        i <= first_after(t, cats, c, i) <= t.len(),
    decreases t.len() - i,
{
    if i < t.len() {
        lemma_first_after_bounds(t, cats, c, i + 1);
    }
}

proof fn lemma_found_is_shown(keys: Seq<(u8, u32)>, m: Map<(u8, u32), usize>, a: usize, f: Option<KeyBinding>)
    requires
        keys.to_set() == m.dom(),
        found_so_far(keys, m, keys.len() as int, a, f),
    ensures
        f == shown_binding(m, a),
{
    match f {
        Some(b) => {
            let q = choose|q: int| #![trigger keys[q]] 0 <= q < keys.len() && keys[q] == key_of(b) && m[keys[q]] == a
                && forall|q2: int| 0 <= q2 < keys.len() && #[trigger] m[keys[q2]] == a ==> !key_lt(key_of(b), keys[q2]);
            let k = keys[q];
            assert(keys.to_set().contains(k));
            assert forall|k2: (u8, u32)| #[trigger] m.contains_key(k2) && m[k2] == a implies !key_lt(k, k2) by {
                assert(keys.to_set().contains(k2));
                let q2 = choose|q2: int| 0 <= q2 < keys.len() && keys[q2] == k2;
                assert(m[keys[q2]] == a);
            }
            assert(is_shown_key(m, a, k));
            let c = choose|c: (u8, u32)| is_shown_key(m, a, c);
            assert(!key_lt(c, k) && !key_lt(k, c));
            assert(c == k);
        },
        None => {
            assert forall|k: (u8, u32)| !is_shown_key(m, a, k) by {
                if m.contains_key(k) && m[k] == a {
                    assert(keys.to_set().contains(k));
                    let q = choose|q: int| 0 <= q < keys.len() && keys[q] == k;
                    assert(m[keys[q]] != a);
                }
            }
        },
    }
}

impl Keybinds {
    /// The list of the key-binding settings (see `settings_list`); every
    /// binding must run a registered action.
    pub fn settings_entries(&self, actions: &KeyActions) -> (r: Vec<(usize, Option<KeyBinding>)>)
        requires
            forall|k: (u8, u32)| #[trigger] self.map@.contains_key(k) ==> self.map@[k] < actions.actions@.len(),
        ensures
            r@ == settings_list(self.map@, actions.actions@),
    {
        let n = actions.actions.len();
        let ghost m = self.map@;
        let ghost cats = categories(actions.actions@);
        let mut keys: Vec<(u8, u32)> = Vec::new();
        for k in it: self.map.keys()
            invariant
                keys@ == it.seq().take(it.index()).map_values(|k: &(u8, u32)| *k),
                it.seq() == vstd::std_specs::btree::spec_keys_iter(&self.map).remaining(),
        {
            keys.push(*k);
        }
        proof {
            let ks = vstd::std_specs::btree::spec_keys_iter(&self.map).remaining();
            assert(keys@ =~= ks.unref());
        }
        let mut shown: Vec<Option<KeyBinding>> = Vec::new();
        let mut i: usize = 0;
        while i < n
            invariant
                i <= n,
                n == actions.actions@.len(),
                shown@ == Seq::new(i as nat, |j: int| None::<KeyBinding>),
            decreases n - i,
        {
            shown.push(None);
            i = i + 1;
            assert(shown@ =~= Seq::new(i as nat, |j: int| None::<KeyBinding>));
        }
        let mut j: usize = 0;
        while j < keys.len()
            invariant
                j <= keys@.len(),
                n == actions.actions@.len(),
                m == self.map@,
                keys@.to_set() == m.dom(),
                forall|k: (u8, u32)| #[trigger] m.contains_key(k) ==> m[k] < n,
                shown@.len() == n,
                forall|a: int| 0 <= a < n ==> found_so_far(keys@, m, j as int, a as usize, #[trigger] shown@[a]),
            decreases keys.len() - j,
        {
            assert(keys@.to_set().contains(keys@[j as int]));
            let k = keys[j];
            let v = *self.map.get(&k).unwrap();
            let replace = match shown[v] {
                None => true,
                Some(b) => b.modifiers < k.0 || (b.modifiers == k.0 && b.key < k.1),
            };
            let ghost before = shown@;
            if replace {
                shown.set(v, Some(KeyBinding { modifiers: k.0, key: k.1 }));
            }
            proof {
                assert forall|a: int| 0 <= a < n implies found_so_far(keys@, m, j + 1, a as usize, #[trigger] shown@[a]) by {
                    if a != v {
                        assert(shown@[a] == before[a]);
                        match before[a] {
                            Some(b) => {
                                let q = choose|q: int| #![trigger keys@[q]] 0 <= q < j && keys@[q] == key_of(b) && m[keys@[q]] == a as usize
                                    && forall|q2: int| 0 <= q2 < j && #[trigger] m[keys@[q2]] == a as usize ==> !key_lt(key_of(b), keys@[q2]);
                                assert(keys@[q] == key_of(b));
                            },
                            None => {},
                        }
                    } else if replace {
                        assert(keys@[j as int] == key_of(KeyBinding { modifiers: k.0, key: k.1 }));
                        match before[a] {
                            Some(b) => {
                                let q = choose|q: int| #![trigger keys@[q]] 0 <= q < j && keys@[q] == key_of(b) && m[keys@[q]] == a as usize
                                    && forall|q2: int| 0 <= q2 < j && #[trigger] m[keys@[q2]] == a as usize ==> !key_lt(key_of(b), keys@[q2]);
                                assert forall|q2: int| 0 <= q2 < j + 1 && #[trigger] m[keys@[q2]] == a as usize implies !key_lt(key_of(KeyBinding { modifiers: k.0, key: k.1 }), keys@[q2]) by {
                                    if q2 < j {
                                        assert(!key_lt(key_of(b), keys@[q2]));
                                    }
                                }
                            },
                            None => {},
                        }
                    } else {
                        let b = before[a]->0;
                        let q = choose|q: int| #![trigger keys@[q]] 0 <= q < j && keys@[q] == key_of(b) && m[keys@[q]] == a as usize
                            && forall|q2: int| 0 <= q2 < j && #[trigger] m[keys@[q2]] == a as usize ==> !key_lt(key_of(b), keys@[q2]);
                        assert(keys@[q] == key_of(b));
                    }
                }
            }
            j = j + 1;
        }
        proof {
            assert forall|a: int| 0 <= a < n implies #[trigger] shown@[a] == shown_binding(m, a as usize) by {
                lemma_found_is_shown(keys@, m, a as usize, shown@[a]);
            }
        }
        let ghost entries = Seq::new(n as nat, |i: int| (i as usize, shown_binding(m, i as usize)));
        let mut out: Vec<(usize, Option<KeyBinding>)> = Vec::new();
        let mut i: usize = 0;
        while i < n
            invariant
                i <= n,
                n == actions.actions@.len(),
                shown@.len() == n,
                cats == categories(actions.actions@),
                entries == Seq::new(n as nat, |i: int| (i as usize, shown_binding(m, i as usize))),
                forall|a: int| 0 <= a < n ==> #[trigger] shown@[a] == shown_binding(m, a as usize),
                out@ == by_category(entries.take(i as int), cats),
                forall|q: int| 0 <= q < out@.len() ==> (#[trigger] out@[q]).0 < n,
            decreases n - i,
        {
            let e = (i, shown[i]);
            let cat = actions.actions[i].category.as_str();
            let mut p: usize = 0;
            while p < out.len() && !(str_le(cat, actions.actions[out[p].0].category.as_str()) && !str_eq(
                cat,
                actions.actions[out[p].0].category.as_str(),
            ))
                invariant
                    p <= out@.len(),
                    n == actions.actions@.len(),
                    cats == categories(actions.actions@),
                    cat@ == cats[i as int],
                    i < n,
                    forall|q: int| 0 <= q < out@.len() ==> (#[trigger] out@[q]).0 < n,
                    first_after(out@, cats, cats[i as int], 0) == first_after(out@, cats, cats[i as int], p as int),
                decreases out.len() - p,
            {
                p = p + 1;
            }
            proof {
                lemma_first_after_bounds(out@, cats, cats[i as int], 0);
                assert(entries.take(i + 1).drop_last() =~= entries.take(i as int));
                assert(entries.take(i + 1).last() == e);
            }
            out.insert(p, e);
            i = i + 1;
            proof {
                assert forall|q: int| 0 <= q < out@.len() implies (#[trigger] out@[q]).0 < n by {}
            }
        }
        assert(entries.take(n as int) =~= entries);
        out
    }
}

/// What releasing a key does.
#[derive(Debug, Clone, Copy, PartialEq, Eq)]
pub enum KeyRelease {
    /// The action bound to the key with these modifiers runs.
    Run(KeyActionId),
    /// The key is bound to an action that is disabled: nothing happens.
    Swallowed,
    /// No binding applies: the focused and watching elements get the key.
    PassOn,
}

/// Bindings apply while the settings are neither open nor opening or
/// closing (`settings_busy`) and the key is known.
pub open spec fn released(
    m: Map<(u8, u32), usize>,
    actions: Seq<KeyActionInfo>,
    settings_busy: bool,
    mods: Modifiers,
    key: Option<u32>,
) -> KeyRelease {
    if !settings_busy && key is Some && m.contains_key((modifier_bits(mods), key->0)) {
        let a = m[(modifier_bits(mods), key->0)];
        if actions[a as int].enabled {
            KeyRelease::Run(KeyActionId(a))
        } else {
            KeyRelease::Swallowed
        }
    } else {
        KeyRelease::PassOn
    }
}

impl Keybinds {
    /// What releasing `key` with these modifiers does; every binding must
    /// run a registered action.
    pub fn on_release(&self, actions: &KeyActions, settings_busy: bool, modifiers: &Modifiers, key: Option<u32>) -> (r:
        KeyRelease)
        requires
            forall|k: (u8, u32)| #[trigger] self.map@.contains_key(k) ==> self.map@[k] < actions.actions@.len(),
        ensures
            r == released(self.map@, actions.actions@, settings_busy, *modifiers, key),
    {
        if settings_busy {
            return KeyRelease::PassOn;
        }
        match key {
            None => KeyRelease::PassOn,
            Some(k) => {
                let b = KeyBinding::new(modifiers, k);
                match self.get(b) {
                    Some(action) => {
                        if actions.actions[action.0].runs() {
                            KeyRelease::Run(action)
                        } else {
                            KeyRelease::Swallowed
                        }
                    },
                    None => KeyRelease::PassOn,
                }
            },
        }
    }
}

/// A key that triggers when it is released, with two bits per modifier
/// (ctrl lowest, then shift, alt and logo): where the higher bit is set the
/// modifier does not matter, else it must be held if the lower bit is set
/// and must not be held if it is clear. With all bits set it never triggers.
#[derive(Debug, Clone, Copy, PartialEq, Eq, Structural)]
pub struct Hotkey {
    pub modifiers: u8,
    pub key: u32,
}

/// Whether a modifier is as the two bits `ignore` and `held` of `m` ask.
pub open spec fn modifier_as_asked(m: u8, ignore: u8, held: u8, is_held: bool) -> bool {
    m & ignore != 0 || (m & held != 0) == is_held
}

pub open spec fn hotkey_triggers(h: Hotkey, mods: Modifiers, down: bool, key: Option<u32>) -> bool {
    &&& h.modifiers != 255
    &&& !down
    &&& key == Some(h.key)
    &&& modifier_as_asked(h.modifiers, 2, 1, mods.ctrl)
    &&& modifier_as_asked(h.modifiers, 8, 4, mods.shift)
    &&& modifier_as_asked(h.modifiers, 32, 16, mods.alt)
    &&& modifier_as_asked(h.modifiers, 128, 64, mods.logo)
}

impl Hotkey {
    /// Whether this key event (a press if `down`, else a release) triggers.
    pub fn triggered(&self, modifiers: &Modifiers, down: bool, key: Option<u32>) -> (r: bool)
        ensures
            r == hotkey_triggers(*self, *modifiers, down, key),
    {
        if self.modifiers == 255 {
            return false;
        }
        let m = self.modifiers;
        !down && key == Some(self.key) && (m & 2 != 0 || (m & 1 != 0) == modifiers.ctrl) && (m & 8 != 0 || (m
            & 4 != 0) == modifiers.shift) && (m & 32 != 0 || (m & 16 != 0) == modifiers.alt) && (m & 128 != 0
            || (m & 64 != 0) == modifiers.logo)
    }

    /// The key with no modifier but shift, which does not matter.
    pub fn new_key(key: u32) -> (r: Hotkey)
        ensures
            r == (Hotkey { modifiers: 0b1000, key }),
    {
        Hotkey::new(0b1000, key)
    }

    /// The key with no modifier at all.
    pub fn new_noshift(key: u32) -> (r: Hotkey)
        ensures
            r == (Hotkey { modifiers: 0, key }),
    {
        Hotkey::new(0, key)
    }

    /// Shift and the key.
    pub fn new_shift(key: u32) -> (r: Hotkey)
        ensures
            r == (Hotkey { modifiers: 0b0100, key }),
    {
        Hotkey::new(0b0100, key)
    }

    /// Ctrl and the key.
    pub fn new_ctrl(key: u32) -> (r: Hotkey)
        ensures
            r == (Hotkey { modifiers: 0b01, key }),
    {
        Hotkey::new(0b01, key)
    }

    /// Ctrl, shift and the key.
    pub fn new_ctrl_shift(key: u32) -> (r: Hotkey)
        ensures
            r == (Hotkey { modifiers: 0b0101, key }),
    {
        Hotkey::new(0b0101, key)
    }

    /// Alt and the key.
    pub fn new_alt(key: u32) -> (r: Hotkey)
        ensures
            r == (Hotkey { modifiers: 0b010000, key }),
    {
        Hotkey::new(0b010000, key)
    }

    /// Alt, shift and the key.
    pub fn new_alt_shift(key: u32) -> (r: Hotkey)
        ensures
            r == (Hotkey { modifiers: 0b010100, key }),
    {
        Hotkey::new(0b010100, key)
    }

    /// Ctrl, alt and the key.
    pub fn new_ctrl_alt(key: u32) -> (r: Hotkey)
        ensures
            r == (Hotkey { modifiers: 0b010001, key }),
    {
        Hotkey::new(0b010001, key)
    }

    /// Ctrl, alt, shift and the key.
    pub fn new_ctrl_alt_shift(key: u32) -> (r: Hotkey)
        ensures
            r == (Hotkey { modifiers: 0b010101, key }),
    {
        Hotkey::new(0b010101, key)
    }

    pub fn new(modifiers: u8, key: u32) -> (r: Hotkey)
        ensures
            r == (Hotkey { modifiers, key }),
    {
        Hotkey { modifiers, key }
    }
}

/// A key made with `new_noshift` triggers when it is released with no
/// modifier held at all.
pub proof fn lemma_noshift_wants_no_modifier(key: u32, mods: Modifiers, down: bool, pressed: Option<u32>)
    ensures
        hotkey_triggers(Hotkey { modifiers: 0, key }, mods, down, pressed) == (!down && pressed == Some(key)
            && !mods.ctrl && !mods.shift && !mods.alt && !mods.logo),
{
    assert(0u8 & 2 == 0 && 0u8 & 1 == 0 && 0u8 & 8 == 0 && 0u8 & 4 == 0 && 0u8 & 32 == 0 && 0u8 & 16 == 0
        && 0u8 & 128 == 0 && 0u8 & 64 == 0) by (bit_vector);
}

/// Unlike one made with `new_noshift`, a key made with `new_key` triggers
/// whether or not shift is held (and with no other modifier).
pub proof fn lemma_key_ignores_shift(key: u32, mods: Modifiers, down: bool, pressed: Option<u32>)
    ensures
        hotkey_triggers(Hotkey { modifiers: 0b1000, key }, mods, down, pressed) == (!down && pressed == Some(
            key,
        ) && !mods.ctrl && !mods.alt && !mods.logo),
{
    let m: u8 = 0b1000;
    assert(m & 2 == 0 && m & 1 == 0 && m & 8 != 0 && m & 32 == 0 && m & 16 == 0 && m & 128 == 0 && m & 64
        == 0) by (bit_vector)
        requires
            m == 0b1000,
    ;
}

/// What a key pressed while a binding is being changed gives: a key that
/// is not itself a modifier key (`modifier_key`) becomes the new binding,
/// with the modifiers held; anything else changes nothing.
pub fn captured_binding(
    changing: bool,
    modifiers: &Modifiers,
    down: bool,
    key: Option<u32>,
    modifier_key: bool,
) -> (r: Option<KeyBinding>)
    ensures
        r == (if changing && down && key is Some && !modifier_key {
            Some(KeyBinding { modifiers: modifier_bits(*modifiers), key: key->0 })
        } else {
            None
        }),
{
    if changing && down {
        match key {
            Some(k) => {
                if !modifier_key {
                    Some(KeyBinding::new(modifiers, k))
                } else {
                    None
                }
            },
            None => None,
        }
    } else {
        None
    }
}

/// What a space typed with neither ctrl, alt nor logo held asks the server.
#[derive(Debug, Clone, Copy, PartialEq, Eq, Structural)]
pub enum PlaybackCommand {
    Pause,
    Resume,
}

/// The command a space typed on the main screen sends: none where ctrl,
/// alt or logo is held or the character is not a space, else pause while
/// playing and resume while not.
pub fn space_command(modifiers: &Modifiers, c: char, playing: bool) -> (r: Option<PlaybackCommand>)
    ensures
        r == (if c == ' ' && !(modifiers.ctrl || modifiers.alt || modifiers.logo) {
            Some(if playing { PlaybackCommand::Pause } else { PlaybackCommand::Resume })
        } else {
            None
        }),
{
    if c == ' ' && !(modifiers.ctrl || modifiers.alt || modifiers.logo) {
        Some(if playing { PlaybackCommand::Pause } else { PlaybackCommand::Resume })
    } else {
        None
    }
}

/// What the settings show of an action, and whether it is enabled.
pub struct KeyActionInfo {
    pub category: String,
    pub title: String,
    pub description: String,
    pub enabled: bool,
}

impl KeyActionInfo {
    /// A pressed binding runs its action only while the action is enabled.
    pub fn runs(&self) -> (r: bool)
        ensures
            r == self.enabled,
    {
        self.enabled
    }
}

/// The registered actions; an action's id is its position.
pub struct KeyActions {
    pub actions: Vec<KeyActionInfo>,
}

impl KeyActions {
    pub fn new() -> (r: KeyActions)
        ensures
            r.actions@.len() == 0,
    {
        KeyActions { actions: Vec::new() }
    }

    /// Registers an action; its id is the number of actions before it.
    pub fn add(&mut self, action: KeyActionInfo) -> (r: KeyActionId)
        ensures
            r.0 == old(self).actions@.len(),
            final(self).actions@ == old(self).actions@.push(action),
    {
        let id = KeyActionId(self.actions.len());
        self.actions.push(action);
        id
    }
}

/// The map without the bindings of one action.
pub open spec fn unbound(m: Map<(u8, u32), usize>, action: usize) -> Map<(u8, u32), usize> {
    Map::new(|k: (u8, u32)| m.contains_key(k) && m[k] != action, |k: (u8, u32)| m[k])
}

pub open spec fn key_of(b: KeyBinding) -> (u8, u32) {
    (b.modifiers, b.key)
}

/// The table from bindings to actions.
pub struct Keybinds {
    pub map: BTreeMap<(u8, u32), usize>,
}

impl Keybinds {
    pub fn new() -> (r: Keybinds)
        ensures
            r.map@ == Map::<(u8, u32), usize>::empty(),
    {
        Keybinds { map: BTreeMap::new() }
    }

    /// The action bound to a binding.
    pub fn get(&self, b: KeyBinding) -> (r: Option<KeyActionId>)
        ensures
            self.map@.contains_key(key_of(b)) ==> r == Some(KeyActionId(self.map@[key_of(b)])),
            !self.map@.contains_key(key_of(b)) ==> r is None,
    {
        match self.map.get(&(b.modifiers, b.key)) {
            Some(i) => Some(KeyActionId(*i)),
            None => None,
        }
    }

    /// Binds a newly registered action to a binding, if it has one.
    pub fn bind(&mut self, b: Option<KeyBinding>, action: KeyActionId)
        ensures
            match b {
                Some(k) => final(self).map@ == old(self).map@.insert(key_of(k), action.0),
                None => final(self).map@ == old(self).map@,
            },
    {
        if let Some(k) = b {
            self.map.insert((k.modifiers, k.key), action.0);
        }
    }

    /// Changes the binding of an action: every binding it had is dropped,
    /// then the new one (if any) is bound to it.
    pub fn set(&mut self, action: KeyActionId, b: Option<KeyBinding>)
        ensures
            match b {
                Some(k) => final(self).map@ == unbound(old(self).map@, action.0).insert(key_of(k), action.0),
                None => final(self).map@ == unbound(old(self).map@, action.0),
            },
    {
        let mut keys: Vec<(u8, u32)> = Vec::new();
        for k in it: self.map.keys()
            invariant
                keys@ == it.seq().take(it.index()).map_values(|k: &(u8, u32)| *k),
                it.seq() == vstd::std_specs::btree::spec_keys_iter(&self.map).remaining(),
        {
            keys.push(*k);
        }
        let ghost start = self.map@;
        proof {
            let ks = vstd::std_specs::btree::spec_keys_iter(&self.map).remaining();
            assert(keys@ =~= ks.unref());
        }
        let mut drop: Vec<(u8, u32)> = Vec::new();
        let mut j: usize = 0;
        while j < keys.len()
            invariant
                j <= keys@.len(),
                self.map@ == start,
                keys@.to_set() == start.dom(),
                forall|d: int| 0 <= d < drop@.len() ==> start.contains_key(#[trigger] drop@[d]) && start[drop@[d]] == action.0,
                forall|q: int| 0 <= q < j ==> start[#[trigger] keys@[q]] == action.0 ==> drop@.contains(keys@[q]),
            decreases keys.len() - j,
        {
            assert(keys@.to_set().contains(keys@[j as int]));
            let k = keys[j];
            let v = *self.map.get(&k).unwrap();
            if v == action.0 {
                let ghost d0 = drop@;
                drop.push(k);
                proof {
                    assert(drop@[d0.len() as int] == k);
                    assert forall|q: int| 0 <= q < j ==> start[#[trigger] keys@[q]] == action.0 ==> drop@.contains(keys@[q]) by {
                        if 0 <= q < j && start[keys@[q]] == action.0 {
                            let w = choose|w: int| 0 <= w < d0.len() && d0[w] == keys@[q];
                            assert(drop@[w] == keys@[q]);
                        }
                    }
                }
            }
            j = j + 1;
        }
        assert forall|k: (u8, u32)| start.contains_key(k) && start[k] == action.0 implies drop@.contains(k) by {
            assert(keys@.to_set().contains(k));
            let q = choose|q: int| 0 <= q < keys@.len() && keys@[q] == k;
            assert(start[keys@[q]] == action.0);
        }
        let mut i: usize = 0;
        while i < drop.len()
            invariant
                i <= drop@.len(),
                forall|j: int| 0 <= j < drop@.len() ==> start.contains_key(#[trigger] drop@[j]) && start[drop@[j]] == action.0,
                forall|k: (u8, u32)| start.contains_key(k) && start[k] == action.0 ==> drop@.contains(k),
                forall|k: (u8, u32)| #[trigger] self.map@.contains_key(k) <==> (start.contains_key(k) && !drop@.take(i as int).contains(k)),
                forall|k: (u8, u32)| self.map@.contains_key(k) ==> #[trigger] self.map@[k] == start[k],
            decreases drop.len() - i,
        {
            self.map.remove(&drop[i]);
            proof {
                let t0 = drop@.take(i as int);
                let t1 = drop@.take(i + 1);
                assert(t1 =~= t0.push(drop@[i as int]));
                assert forall|k: (u8, u32)| #[trigger] self.map@.contains_key(k) <==> (start.contains_key(k) && !t1.contains(k)) by {
                    if t1.contains(k) && !t0.contains(k) {
                        let j = choose|j: int| 0 <= j < t1.len() && t1[j] == k;
                        if j < i {
                            assert(t0[j] == k);
                        }
                    }
                    if t0.contains(k) {
                        let j = choose|j: int| 0 <= j < t0.len() && t0[j] == k;
                        assert(t1[j] == k);
                    }
                    if k == drop@[i as int] {
                        assert(t1[i as int] == k);
                    }
                }
            }
            i = i + 1;
        }
        proof {
            assert(drop@.take(drop@.len() as int) =~= drop@);
            assert(self.map@ =~= unbound(start, action.0)) by {
                assert forall|k: (u8, u32)| #[trigger] self.map@.contains_key(k) <==> unbound(start, action.0).contains_key(k) by {
                    if start.contains_key(k) && start[k] != action.0 && drop@.contains(k) {
                        let j = choose|j: int| 0 <= j < drop@.len() && drop@[j] == k;
                        assert(start[drop@[j]] == action.0);
                    }
                }
            }
        }
        if let Some(k) = b {
            self.map.insert((k.modifiers, k.key), action.0);
        }
    }
}

} // verus!
