//! The FastFlag editor and the wrapper settings: what the program holds of
//! Sober's `config.json` while it runs, and every change the interface can
//! make to it.

use vstd::prelude::*;
use crate::keyed_map::{lemma_sorted_unique, sorted_keys, strictly_sorted, KeyedMap};
use crate::text::{chars_of, string_of, text_less, trim_chars, trimmed};
use crate::value::{
    coerce_spec, coerce_value, config_text, config_value_to_string, flag_text, value_to_string,
    Coerced, CoercedView, ConfigValue, ConfigView, FlagValue, FlagView,
};

verus! {

/// A top-level value is well formed: an object's keys are listed in
/// increasing order, each once, and they are the object's keys.
pub open spec fn config_view_wf(v: ConfigView) -> bool {
    match v {
        ConfigView::Table(ks, m) => {
            &&& strictly_sorted(ks)
            &&& forall|k: Seq<char>| #[trigger] ks.contains(k) <==> m.contains_key(k)
        },
        _ => true,
    }
}

/// Every top-level value of `cfg` is well formed.
pub open spec fn config_wf(cfg: Map<Seq<char>, ConfigView>) -> bool {
    forall|k: Seq<char>| #[trigger] cfg.contains_key(k) ==> config_view_wf(cfg[k])
}

/// The FastFlags of a loaded `config.json`: the members of its `fflags`
/// object, or none when `fflags` is missing or not an object.
pub open spec fn loaded_flags(cfg: Map<Seq<char>, ConfigView>) -> Map<Seq<char>, FlagView> {
    if cfg.contains_key("fflags"@) {
        match cfg["fflags"@] {
            ConfigView::Table(_, m) => m,
            _ => Map::empty(),
        }
    } else {
        Map::empty()
    }
}

/// The rest of a loaded `config.json`: every top-level entry but `fflags`.
pub open spec fn loaded_other(cfg: Map<Seq<char>, ConfigView>) -> Map<Seq<char>, ConfigView> {
    cfg.remove("fflags"@)
}

/// What the editor holds: the FastFlags, and the other top-level entries of
/// `config.json`, among them the wrapper settings.
pub struct AppView {
    pub flags: Map<Seq<char>, FlagView>,
    pub other: Map<Seq<char>, ConfigView>,
}

/// The editor's state after loading `cfg`.
pub open spec fn loaded(cfg: Map<Seq<char>, ConfigView>) -> AppView {
    AppView { flags: loaded_flags(cfg), other: loaded_other(cfg) }
}

/// The `config.json` the editor saves: the other entries, and the flags as
/// the `fflags` object.
pub open spec fn saved(v: AppView) -> Map<Seq<char>, ConfigView> {
    v.other.insert("fflags"@, ConfigView::Table(sorted_keys(v.flags), v.flags))
}

/// A wrapper setting kept as a boolean at the top level of `config.json`.
#[derive(Clone, Copy, Debug, PartialEq, Eq, Structural)]
pub enum Setting {
    /// `use_opengl`: use OpenGL in place of Vulkan.
    UseOpengl,
    /// `enable_hidpi`: sharper interface on high-resolution displays.
    EnableHidpi,
    /// `close_on_leave`: quit Sober on leaving a game.
    CloseOnLeave,
}

/// The key under which a setting is stored.
pub open spec fn setting_key(s: Setting) -> Seq<char> {
    match s {
        Setting::UseOpengl => "use_opengl"@,
        Setting::EnableHidpi => "enable_hidpi"@,
        Setting::CloseOnLeave => "close_on_leave"@,
    }
}

/// The key under which a setting is stored.
pub fn setting_name(s: Setting) -> (r: &'static str)
    ensures
        r@ == setting_key(s),
{
    match s {
        Setting::UseOpengl => "use_opengl",
        Setting::EnableHidpi => "enable_hidpi",
        Setting::CloseOnLeave => "close_on_leave",
    }
}

/// Whether a setting is on: only a stored `true` turns it on.
pub open spec fn setting_on(v: AppView, s: Setting) -> bool {
    v.other.contains_key(setting_key(s)) && v.other[setting_key(s)] == ConfigView::Value(
        FlagView::Bool(true),
    )
}

/// The text shown for the touch mode: the stored value's text, or nothing.
pub open spec fn touch_mode_spec(v: AppView) -> Seq<char> {
    if v.other.contains_key("touch_mode"@) {
        config_text(v.other["touch_mode"@])
    } else {
        Seq::<char>::empty()
    }
}

/// Neither a setting's key nor the touch mode's key is `fflags`.
proof fn lemma_keys_not_fflags(s: Setting)
    ensures
        setting_key(s) != "fflags"@,
        "touch_mode"@ != "fflags"@,
{
    reveal_strlit("fflags");
    reveal_strlit("touch_mode");
    reveal_strlit("use_opengl");
    reveal_strlit("enable_hidpi");
    reveal_strlit("close_on_leave");
    assert("fflags"@.len() != "touch_mode"@.len());
    match s {
        Setting::UseOpengl => assert("fflags"@.len() != "use_opengl"@.len()),
        Setting::EnableHidpi => assert("fflags"@.len() != "enable_hidpi"@.len()),
        Setting::CloseOnLeave => assert("fflags"@.len() != "close_on_leave"@.len()),
    }
}

/// The editor's state: the FastFlags, and the other top-level entries of
/// `config.json`.
#[derive(Debug)]
pub struct AppState {
    fflags: KeyedMap<FlagValue>,
    other: KeyedMap<ConfigValue>,
}

impl View for AppState {
    type V = AppView;

    closed spec fn view(&self) -> AppView {
        AppView { flags: self.fflags@, other: self.other@ }
    }
}

impl AppState {
    /// The state is well formed.
    pub closed spec fn wf(&self) -> bool {
        &&& self.fflags.wf()
        &&& self.other.wf()
        &&& config_wf(self.other@)
        &&& !self.other@.contains_key("fflags"@)
    }

    /// The flags' keys are the flags listed in increasing order.
    proof fn lemma_flag_keys(&self)
        requires
            self.wf(),
        ensures
            self.fflags.key_seq() == sorted_keys(self@.flags),
            strictly_sorted(sorted_keys(self@.flags)),
            forall|k: Seq<char>| #[trigger] sorted_keys(self@.flags).contains(k) <==> self@.flags.contains_key(k),
    {
        self.fflags.lemma_key_seq();
    }

    /// The state of an editor that has loaded nothing.
    pub fn new() -> (s: AppState)
        ensures
            s.wf(),
            s@.flags == Map::<Seq<char>, FlagView>::empty(),
            s@.other == Map::<Seq<char>, ConfigView>::empty(),
    {
        AppState { fflags: KeyedMap::new(), other: KeyedMap::new() }
    }

    /// The state after loading `cfg`, the top-level object of
    /// `config.json`: its `fflags` object becomes the flags, every other
    /// entry is kept as it is.
    pub fn from_config(cfg: KeyedMap<ConfigValue>) -> (s: AppState)
        requires
            cfg.wf(),
            config_wf(cfg@),
        ensures
            s.wf(),
            s@ == loaded(cfg@),
    {
        let ghost before = cfg@;
        let mut cfg = cfg;
        let taken = cfg.remove("fflags");
        let fflags = match taken {
            Some(ConfigValue::Table(m)) => {
                assert(config_view_wf(before["fflags"@]));
                m
            },
            _ => KeyedMap::new(),
        };
        assert(config_wf(cfg@)) by {
            assert forall|k: Seq<char>| #[trigger] cfg@.contains_key(k) implies config_view_wf(cfg@[k]) by {
                assert(before.contains_key(k));
            }
        }
        let s = AppState { fflags, other: cfg };
        assert(s@.flags =~= loaded_flags(before));
        s
    }

    /// The `config.json` object to save (see [`saved`]).
    pub fn config_document(&self) -> (doc: KeyedMap<ConfigValue>)
        requires
            self.wf(),
        ensures
            doc.wf(),
            config_wf(doc@),
            doc@ == saved(self@),
    {
        proof {
            self.lemma_flag_keys();
        }
        let mut doc = self.other.duplicate();
        let flags = self.fflags.duplicate();
        doc.insert(String::from_str("fflags"), ConfigValue::Table(flags));
        assert(config_wf(doc@)) by {
            assert forall|k: Seq<char>| #[trigger] doc@.contains_key(k) implies config_view_wf(doc@[k]) by {
                if k != "fflags"@ {
                    assert(self.other@.contains_key(k));
                }
            }
        }
        doc
    }

    /// Sets flag `name` to `value`, as editing a flag's row or adding a
    /// custom flag does.
    pub fn set_flag(&mut self, name: String, value: FlagValue)
        requires
            old(self).wf(),
        ensures
            final(self).wf(),
            final(self)@ == (AppView { flags: old(self)@.flags.insert(name@, value@), other: old(self)@.other }),
    {
        self.fflags.insert(name, value);
    }

    /// Removes flag `name`, as its row's delete button does.
    pub fn remove_flag(&mut self, name: &str)
        requires
            old(self).wf(),
        ensures
            final(self).wf(),
            final(self)@ == (AppView { flags: old(self)@.flags.remove(name@), other: old(self)@.other }),
    {
        let _ = self.fflags.remove(name);
    }

    /// Whether flag `name` is set.
    pub fn has_flag(&self, name: &str) -> (b: bool)
        requires
            self.wf(),
        ensures
            b == self@.flags.contains_key(name@),
    {
        self.fflags.contains_key(name)
    }

    /// Adds a flag from the library of known flags: a flag that is already
    /// set keeps its value, and the result tells whether it was added.
    pub fn add_known_flag(&mut self, name: &str, value: FlagValue) -> (added: bool)
        requires
            old(self).wf(),
        ensures
            final(self).wf(),
            added == !old(self)@.flags.contains_key(name@),
            added ==> final(self)@ == (AppView {
                flags: old(self)@.flags.insert(name@, value@),
                other: old(self)@.other,
            }),
            !added ==> final(self)@ == old(self)@,
    {
        if self.fflags.contains_key(name) {
            false
        } else {
            let owned = String::from_str(name);
            self.fflags.insert(owned, value);
            true
        }
    }

    /// Applies a preset: every flag of the preset is set to the preset's
    /// value; the other flags stay as they are.
    pub fn apply_preset(&mut self, preset: &KeyedMap<FlagValue>)
        requires
            old(self).wf(),
            preset.wf(),
        ensures
            final(self).wf(),
            final(self)@ == (AppView {
                flags: old(self)@.flags.union_prefer_right(preset@),
                other: old(self)@.other,
            }),
    {
        let ghost start = self@.flags;
        proof {
            preset.lemma_key_seq();
        }
        let ghost ks = preset.key_seq();
        assert(preset@.restrict(Set::new(|k: Seq<char>| ks.take(0).contains(k))) =~= Map::empty());
        assert(start.union_prefer_right(Map::empty()) =~= start);
        let mut i: usize = 0;
        while i < preset.len()
            invariant
                self.wf(),
                preset.wf(),
                ks == preset.key_seq(),
                i <= ks.len(),
                self@.other == old(self)@.other,
                start == old(self)@.flags,
                forall|k: Seq<char>| #[trigger] preset@.contains_key(k) <==> ks.contains(k),
                forall|j: int| 0 <= j < ks.len() ==> #[trigger] preset@[ks[j]] == preset.value_seq()[j],
                self@.flags == start.union_prefer_right(
                    preset@.restrict(Set::new(|k: Seq<char>| ks.take(i as int).contains(k))),
                ),
            decreases ks.len() - i,
        {
            let (k, v) = preset.entry(i);
            let key = k.clone();
            let value = crate::keyed_map::Duplicate::duplicate(v);
            self.fflags.insert(key, value);
            proof {
                let sa = Set::new(|k: Seq<char>| ks.take(i as int).contains(k));
                let sb = Set::new(|k: Seq<char>| ks.take(i + 1).contains(k));
                let a = preset@.restrict(sa);
                let b = preset@.restrict(sb);
                let t0 = ks.take(i as int);
                let t1 = ks.take(i + 1);
                assert(sb =~= sa.insert(ks[i as int])) by {
                    assert forall|k: Seq<char>| sb.contains(k) <==> sa.insert(ks[i as int]).contains(k) by {
                        if t1.contains(k) {
                            let x = choose|x: int| 0 <= x < t1.len() && t1[x] == k;
                            if x < i {
                                assert(t0[x] == k);
                            }
                        }
                        if t0.contains(k) {
                            let x = choose|x: int| 0 <= x < t0.len() && t0[x] == k;
                            assert(t1[x] == k);
                        }
                        if k == ks[i as int] {
                            assert(t1[i as int] == k);
                        }
                    }
                }
                assert(b =~= a.insert(ks[i as int], preset@[ks[i as int]]));
                assert(self@.flags =~= start.union_prefer_right(b));
            }
            i += 1;
        }
        proof {
            assert(ks.take(ks.len() as int) =~= ks);
            assert(preset@.restrict(Set::new(|k: Seq<char>| ks.take(ks.len() as int).contains(k))) =~= preset@);
        }
    }

    /// Removes every flag, as "Clear All" does.
    pub fn clear_flags(&mut self)
        requires
            old(self).wf(),
        ensures
            final(self).wf(),
            final(self)@ == (AppView { flags: Map::empty(), other: old(self)@.other }),
    {
        self.fflags.clear();
    }

    /// The rows of the flag list: each flag's name and shown value, in
    /// increasing order of names.
    pub fn flag_rows(&self) -> (rows: Vec<(String, String)>)
        requires
            self.wf(),
        ensures
            rows@.len() == sorted_keys(self@.flags).len(),
            forall|i: int, j: int|
                0 <= i < j < rows@.len() ==> text_less((#[trigger] rows@[i]).0@, (#[trigger] rows@[j]).0@),
            forall|k: Seq<char>| #[trigger] self@.flags.contains_key(k) <==> exists|i: int|
                0 <= i < rows@.len() && (#[trigger] rows@[i]).0@ == k,
            forall|i: int|
                0 <= i < rows@.len() ==> (#[trigger] rows@[i]).0@ == sorted_keys(self@.flags)[i]
                    && rows@[i].1@ == flag_text(self@.flags[sorted_keys(self@.flags)[i]]),
    {
        proof {
            self.lemma_flag_keys();
        }
        let mut rows: Vec<(String, String)> = Vec::new();
        let mut i: usize = 0;
        while i < self.fflags.len()
            invariant
                self.wf(),
                self.fflags.key_seq() == sorted_keys(self@.flags),
                i <= self.fflags.key_seq().len(),
                rows@.len() == i,
                forall|j: int|
                    0 <= j < i ==> (#[trigger] rows@[j]).0@ == sorted_keys(self@.flags)[j]
                        && rows@[j].1@ == flag_text(self@.flags[sorted_keys(self@.flags)[j]]),
            decreases self.fflags.key_seq().len() - i,
        {
            let (k, v) = self.fflags.entry(i);
            rows.push((k.clone(), value_to_string(v)));
            i += 1;
        }
        proof {
            let ks = sorted_keys(self@.flags);
            assert forall|k: Seq<char>| #[trigger] self@.flags.contains_key(k) <==> exists|i: int|
                0 <= i < rows@.len() && (#[trigger] rows@[i]).0@ == k by {
                if self@.flags.contains_key(k) {
                    assert(ks.contains(k));
                    let i = choose|i: int| 0 <= i < ks.len() && ks[i] == k;
                    assert(rows@[i].0@ == k);
                }
                if exists|i: int| 0 <= i < rows@.len() && (#[trigger] rows@[i]).0@ == k {
                    let i = choose|i: int| 0 <= i < rows@.len() && (#[trigger] rows@[i]).0@ == k;
                    assert(ks[i] == k);
                    assert(ks.contains(k));
                }
            }
        }
        rows
    }

    /// Whether a wrapper setting is on (see [`setting_on`]).
    pub fn setting_enabled(&self, s: Setting) -> (on: bool)
        requires
            self.wf(),
        ensures
            on == setting_on(self@, s),
    {
        match self.other.get(setting_name(s)) {
            Some(ConfigValue::Value(FlagValue::Bool(b))) => *b,
            _ => false,
        }
    }

    /// Stores a wrapper setting.
    pub fn set_setting(&mut self, s: Setting, on: bool)
        requires
            old(self).wf(),
        ensures
            final(self).wf(),
            final(self)@ == (AppView {
                flags: old(self)@.flags,
                other: old(self)@.other.insert(setting_key(s), ConfigView::Value(FlagView::Bool(on))),
            }),
    {
        proof {
            lemma_keys_not_fflags(s);
        }
        self.other.insert(String::from_str(setting_name(s)), ConfigValue::Value(FlagValue::Bool(on)));
        assert(config_wf(self.other@)) by {
            assert forall|k: Seq<char>| #[trigger] self.other@.contains_key(k) implies config_view_wf(self.other@[k]) by {
                if k != setting_key(s) {
                    assert(old(self).other@.contains_key(k));
                }
            }
        }
    }

    /// The text shown for the touch mode (see [`touch_mode_spec`]).
    pub fn touch_mode(&self) -> (t: String)
        requires
            self.wf(),
        ensures
            t@ == touch_mode_spec(self@),
    {
        match self.other.get("touch_mode") {
            Some(v) => {
                assert(config_view_wf(self@.other["touch_mode"@]));
                config_value_to_string(v)
            },
            None => String::new(),
        }
    }

    /// Stores the touch mode as the given text.
    pub fn set_touch_mode(&mut self, text: String)
        requires
            old(self).wf(),
        ensures
            final(self).wf(),
            final(self)@ == (AppView {
                flags: old(self)@.flags,
                other: old(self)@.other.insert("touch_mode"@, ConfigView::Value(FlagView::Text(text@))),
            }),
    {
        proof {
            lemma_keys_not_fflags(Setting::UseOpengl);
        }
        self.other.insert(String::from_str("touch_mode"), ConfigValue::Value(FlagValue::Text(text)));
        assert(config_wf(self.other@)) by {
            assert forall|k: Seq<char>| #[trigger] self.other@.contains_key(k) implies config_view_wf(self.other@[k]) by {
                if k != "touch_mode"@ {
                    assert(old(self).other@.contains_key(k));
                }
            }
        }
    }

    /// Forgets every flag and setting, as the full reset does after
    /// deleting the files.
    pub fn reset(&mut self)
        requires
            old(self).wf(),
        ensures
            final(self).wf(),
            final(self)@ == (AppView { flags: Map::empty(), other: Map::empty() }),
    {
        self.fflags.clear();
        self.other.clear();
    }
}

/// A custom flag typed into the "Add Custom FastFlag" dialog: nothing when
/// the trimmed name is empty; otherwise the trimmed name, with `true` for
/// an empty value and the typed value's meaning otherwise.
pub open spec fn custom_flag_spec(name: Seq<char>, value: Seq<char>) -> Option<(Seq<char>, CoercedView)> {
    if trimmed(name).len() == 0 {
        None
    } else if trimmed(value).len() == 0 {
        Some((trimmed(name), CoercedView::Value(FlagView::Bool(true))))
    } else {
        Some((trimmed(name), coerce_spec(trimmed(value))))
    }
}

/// Reads a custom flag typed into the dialog (see [`custom_flag_spec`]).
pub fn custom_flag(name: &str, value: &str) -> (r: Option<(String, Coerced)>)
    ensures
        match r {
            Some((n, v)) => custom_flag_spec(name@, value@) == Some((n@, v@)),
            None => custom_flag_spec(name@, value@) is None,
        },
{
    let name_chars = chars_of(name);
    let n = trim_chars(&name_chars);
    if n.len() == 0 {
        return None;
    }
    let value_chars = chars_of(value);
    let v = trim_chars(&value_chars);
    let name_text = string_of(n.as_slice());
    if v.len() == 0 {
        Some((name_text, Coerced::Value(FlagValue::Bool(true))))
    } else {
        let value_text = string_of(v.as_slice());
        Some((name_text, coerce_value(value_text.as_str())))
    }
}

/// Saving and loading again gives back what the editor held: flags and
/// settings survive a save.
pub proof fn law_save_then_load(v: AppView)
    requires
        !v.other.contains_key("fflags"@),
    ensures
        loaded(saved(v)) == v,
{
    assert(loaded_other(saved(v)) =~= v.other);
    assert(loaded_flags(saved(v)) =~= v.flags);
}

/// The keys of a well-formed object, in their order, are its sorted keys.
pub proof fn lemma_table_keys(ks: Seq<Seq<char>>, m: Map<Seq<char>, FlagView>)
    requires
        config_view_wf(ConfigView::Table(ks, m)),
    ensures
        sorted_keys(m) == ks,
{
    let c = sorted_keys(m);
    assert(strictly_sorted(ks) && forall|k: Seq<char>| #[trigger] ks.contains(k) <==> m.contains_key(k));
    lemma_sorted_unique(ks, c);
}

/// Loading `config.json` and saving it again leaves it as it was when its
/// `fflags` entry is an object; a missing or malformed `fflags` entry is
/// saved as an empty object; nothing else changes.
pub proof fn law_load_then_save(cfg: Map<Seq<char>, ConfigView>)
    requires
        config_wf(cfg),
    ensures
        (cfg.contains_key("fflags"@) && cfg["fflags"@] is Table) ==> saved(loaded(cfg)) == cfg,
        !(cfg.contains_key("fflags"@) && cfg["fflags"@] is Table) ==> saved(loaded(cfg)) == cfg.insert(
            "fflags"@,
            ConfigView::Table(Seq::empty(), Map::empty()),
        ),
{
    let f = "fflags"@;
    if cfg.contains_key(f) && cfg[f] is Table {
        assert(config_view_wf(cfg[f]));
        match cfg[f] {
            ConfigView::Table(ks, m) => {
                lemma_table_keys(ks, m);
                assert(saved(loaded(cfg)) =~= cfg);
            },
            _ => {},
        }
    } else {
        let e = Map::<Seq<char>, FlagView>::empty();
        let es = Seq::<Seq<char>>::empty();
        assert(config_view_wf(ConfigView::Table(es, e)));
        lemma_table_keys(es, e);
        assert(loaded_flags(cfg) =~= e);
        assert(saved(loaded(cfg)) =~= cfg.insert(f, ConfigView::Table(es, e)));
    }
}

/// The three settings are stored under different keys.
proof fn lemma_setting_keys_distinct(s: Setting, t: Setting)
    requires
        s != t,
    ensures
        setting_key(s) != setting_key(t),
{
    reveal_strlit("use_opengl");
    reveal_strlit("enable_hidpi");
    reveal_strlit("close_on_leave");
    assert("use_opengl"@.len() == 10);
    assert("enable_hidpi"@.len() == 12);
    assert("close_on_leave"@.len() == 14);
}

/// A setting reads back as it was stored, and storing one setting leaves
/// the others as they were.
pub proof fn law_setting_read_after_write(v: AppView, s: Setting, on: bool, t: Setting)
    ensures
        setting_on(
            AppView { flags: v.flags, other: v.other.insert(setting_key(s), ConfigView::Value(FlagView::Bool(on))) },
            s,
        ) == on,
        t != s ==> setting_on(
            AppView { flags: v.flags, other: v.other.insert(setting_key(s), ConfigView::Value(FlagView::Bool(on))) },
            t,
        ) == setting_on(v, t),
{
    if t != s {
        lemma_setting_keys_distinct(s, t);
    }
}

/// The touch mode reads back as the text that was stored.
pub proof fn law_touch_mode_read_after_write(v: AppView, text: Seq<char>)
    ensures
        touch_mode_spec(
            AppView { flags: v.flags, other: v.other.insert("touch_mode"@, ConfigView::Value(FlagView::Text(text))) },
        ) == text,
{
}

/// Applying a preset a second time changes nothing.
pub proof fn law_preset_idempotent(flags: Map<Seq<char>, FlagView>, preset: Map<Seq<char>, FlagView>)
    ensures
        flags.union_prefer_right(preset).union_prefer_right(preset) == flags.union_prefer_right(preset),
{
    assert(flags.union_prefer_right(preset).union_prefer_right(preset) =~= flags.union_prefer_right(preset));
}

} // verus!
