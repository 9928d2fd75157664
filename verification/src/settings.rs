//! The settings of the application: how they are stored, and what they are
//! before any is stored.

use vstd::prelude::*;

verus! {

/// The key under which the theme is stored.
pub const KEY_THEME: &'static str = "appSettings.theme";

/// The key under which the name of the output device is stored.
pub const KEY_SOUND_DEVICE: &'static str = "appSettings.sound_device";

/// The key under which the volume is stored.
pub const KEY_VOLUME_FACTOR: &'static str = "appSettings.volume_factor";

/// The key under which it is stored whether backups are made.
pub const KEY_AUTO_BACKUP: &'static str = "appSettings.auto_backup";

/// The key under which it is stored whether a choice selects the next match.
pub const KEY_AUTO_NEXT: &'static str = "appSettings.auto_next";

/// The key under which it is stored whether a selected match is played.
pub const KEY_AUTO_PLAY: &'static str = "appSettings.auto_play";

/// The key under which it is stored whether the list follows the selection.
pub const KEY_AUTO_SCROLL: &'static str = "appSettings.auto_scroll";

/// The theme before any is stored.
pub const DEFAULT_THEME: &'static str = "cupcake";

/// The volume before any is stored, in thousandths: samples as they are.
pub const DEFAULT_VOLUME: u32 = 1000;

/// A value in the store.
#[derive(Debug, PartialEq, Eq)]
pub enum Stored {
    /// Nothing.
    Null,
    /// A truth value.
    Flag(bool),
    /// A number: a volume, in thousandths.
    Number(u32),
    /// A text.
    Text(String),
}

/// An entry of the store: a key and the value under it.
#[derive(Debug, PartialEq, Eq)]
pub struct Entry {
    pub key: String,
    pub value: Stored,
}

/// The settings of the application. The volume is in thousandths.
#[derive(Debug)]
pub struct AppSettings {
    pub theme: String,
    pub sound_device: Option<String>,
    pub volume_factor: u32,
    pub auto_backup: bool,
    pub auto_next: bool,
    pub auto_play: bool,
    pub auto_scroll: bool,
}

/// What a stored value is.
pub enum StoredView {
    Null,
    Flag(bool),
    Number(u32),
    Text(Seq<char>),
}

impl View for Stored {
    type V = StoredView;

    open spec fn view(&self) -> StoredView {
        match self {
            Stored::Null => StoredView::Null,
            Stored::Flag(b) => StoredView::Flag(*b),
            Stored::Number(n) => StoredView::Number(*n),
            Stored::Text(t) => StoredView::Text(t@),
        }
    }
}

/// What the settings are.
pub struct SettingsView {
    pub theme: Seq<char>,
    pub sound_device: Option<Seq<char>>,
    pub volume_factor: u32,
    pub auto_backup: bool,
    pub auto_next: bool,
    pub auto_play: bool,
    pub auto_scroll: bool,
}

impl View for AppSettings {
    type V = SettingsView;

    open spec fn view(&self) -> SettingsView {
        SettingsView {
            theme: self.theme@,
            sound_device: match self.sound_device {
                Some(d) => Some(d@),
                None => None,
            },
            volume_factor: self.volume_factor,
            auto_backup: self.auto_backup,
            auto_next: self.auto_next,
            auto_play: self.auto_play,
            auto_scroll: self.auto_scroll,
        }
    }
}

/// The keys and values of `store`, in order.
pub open spec fn entry_views(store: Seq<Entry>) -> Seq<(Seq<char>, StoredView)> {
    Seq::new(store.len(), |i: int| (store[i].key@, store[i].value@))
}

/// The value under `key` in the entries from `from` on: that of the
/// first entry with that key, if there is one.
pub open spec fn lookup(store: Seq<(Seq<char>, StoredView)>, key: Seq<char>, from: int) -> Option<
    StoredView,
>
    decreases store.len() - from,
{
    if from < 0 || from >= store.len() {
        None
    } else if store[from].0 == key {
        Some(store[from].1)
    } else {
        lookup(store, key, from + 1)
    }
}

/// The text under `key`, if a text is stored there.
pub open spec fn stored_text(store: Seq<(Seq<char>, StoredView)>, key: Seq<char>) -> Option<
    Seq<char>,
> {
    match lookup(store, key, 0) {
        Some(StoredView::Text(t)) => Some(t),
        _ => None,
    }
}

/// The truth value under `key`, or `default` where none is stored there.
pub open spec fn stored_flag(
    store: Seq<(Seq<char>, StoredView)>,
    key: Seq<char>,
    default: bool,
) -> bool {
    match lookup(store, key, 0) {
        Some(StoredView::Flag(b)) => b,
        _ => default,
    }
}

/// The number under `key`, or `default` where none is stored there.
pub open spec fn stored_number(
    store: Seq<(Seq<char>, StoredView)>,
    key: Seq<char>,
    default: u32,
) -> u32 {
    match lookup(store, key, 0) {
        Some(StoredView::Number(n)) => n,
        _ => default,
    }
}

/// The settings that `store` holds: each value that is stored under its
/// key as a value of its kind, and for each that is not, what it is by
/// default. By default no backups are made, the next match is selected
/// after a choice, a match is played when it is selected, and the list
/// follows the selection.
pub open spec fn settings_of(store: Seq<(Seq<char>, StoredView)>) -> SettingsView {
    SettingsView {
        theme: match stored_text(store, KEY_THEME@) {
            Some(t) => t,
            None => DEFAULT_THEME@,
        },
        sound_device: stored_text(store, KEY_SOUND_DEVICE@),
        volume_factor: stored_number(store, KEY_VOLUME_FACTOR@, DEFAULT_VOLUME),
        auto_backup: stored_flag(store, KEY_AUTO_BACKUP@, false),
        auto_next: stored_flag(store, KEY_AUTO_NEXT@, true),
        auto_play: stored_flag(store, KEY_AUTO_PLAY@, true),
        auto_scroll: stored_flag(store, KEY_AUTO_SCROLL@, true),
    }
}

/// The entries under which settings are stored, in order.
pub open spec fn entries_of(s: SettingsView) -> Seq<(Seq<char>, StoredView)> {
    seq![
        (KEY_THEME@, StoredView::Text(s.theme)),
        (
            KEY_SOUND_DEVICE@,
            match s.sound_device {
                Some(d) => StoredView::Text(d),
                None => StoredView::Null,
            },
        ),
        (KEY_VOLUME_FACTOR@, StoredView::Number(s.volume_factor)),
        (KEY_AUTO_BACKUP@, StoredView::Flag(s.auto_backup)),
        (KEY_AUTO_NEXT@, StoredView::Flag(s.auto_next)),
        (KEY_AUTO_PLAY@, StoredView::Flag(s.auto_play)),
        (KEY_AUTO_SCROLL@, StoredView::Flag(s.auto_scroll)),
    ]
}

/// Finds the first entry of `store` under `key`.
fn find_entry<'a>(store: &'a Vec<Entry>, key: &str) -> (r: Option<&'a Stored>)
    ensures
        match r {
            Some(v) => lookup(entry_views(store@), key@, 0) == Some(v@),
            None => lookup(entry_views(store@), key@, 0) is None,
        },
{
    let wanted = String::from_str(key);
    let ghost views = entry_views(store@);
    let mut i: usize = 0;
    while i < store.len()
        invariant
            i <= store.len(),
            wanted@ == key@,
            views == entry_views(store@),
            lookup(views, key@, 0) == lookup(views, key@, i as int),
        decreases store.len() - i,
    {
        if store[i].key == wanted {
            return Some(&store[i].value);
        }
        i += 1;
    }
    None
}

/// The text under `key`, if a text is stored there.
fn find_text(store: &Vec<Entry>, key: &str) -> (r: Option<String>)
    ensures
        match r {
            Some(t) => stored_text(entry_views(store@), key@) == Some(t@),
            None => stored_text(entry_views(store@), key@) is None,
        },
{
    match find_entry(store, key) {
        Some(Stored::Text(t)) => Some(t.clone()),
        _ => None,
    }
}

/// The truth value under `key`, or `default`.
fn find_flag(store: &Vec<Entry>, key: &str, default: bool) -> (r: bool)
    ensures
        r == stored_flag(entry_views(store@), key@, default),
{
    match find_entry(store, key) {
        Some(Stored::Flag(b)) => *b,
        _ => default,
    }
}

/// The number under `key`, or `default`.
fn find_number(store: &Vec<Entry>, key: &str, default: u32) -> (r: u32)
    ensures
        r == stored_number(entry_views(store@), key@, default),
{
    match find_entry(store, key) {
        Some(Stored::Number(n)) => *n,
        _ => default,
    }
}

impl AppSettings {
    /// The settings that the entries of a store hold.
    pub fn load_from_store(store: &Vec<Entry>) -> (s: AppSettings)
        ensures
            s@ == settings_of(entry_views(store@)),
    {
        AppSettings {
            theme: match find_text(store, KEY_THEME) {
                Some(t) => t,
                None => String::from_str(DEFAULT_THEME),
            },
            sound_device: find_text(store, KEY_SOUND_DEVICE),
            volume_factor: find_number(store, KEY_VOLUME_FACTOR, DEFAULT_VOLUME),
            auto_backup: find_flag(store, KEY_AUTO_BACKUP, false),
            auto_next: find_flag(store, KEY_AUTO_NEXT, true),
            auto_play: find_flag(store, KEY_AUTO_PLAY, true),
            auto_scroll: find_flag(store, KEY_AUTO_SCROLL, true),
        }
    }

    /// The entries under which the settings are stored.
    pub fn save_to_store(&self) -> (store: Vec<Entry>)
        ensures
            entry_views(store@) == entries_of(self@),
    {
        let mut store: Vec<Entry> = Vec::new();
        store.push(Entry { key: String::from_str(KEY_THEME), value: Stored::Text(self.theme.clone()) });
        store.push(
            Entry {
                key: String::from_str(KEY_SOUND_DEVICE),
                value: match &self.sound_device {
                    Some(d) => Stored::Text(d.clone()),
                    None => Stored::Null,
                },
            },
        );
        store.push(
            Entry {
                key: String::from_str(KEY_VOLUME_FACTOR),
                value: Stored::Number(self.volume_factor),
            },
        );
        store.push(
            Entry { key: String::from_str(KEY_AUTO_BACKUP), value: Stored::Flag(self.auto_backup) },
        );
        store.push(
            Entry { key: String::from_str(KEY_AUTO_NEXT), value: Stored::Flag(self.auto_next) },
        );
        store.push(
            Entry { key: String::from_str(KEY_AUTO_PLAY), value: Stored::Flag(self.auto_play) },
        );
        store.push(
            Entry { key: String::from_str(KEY_AUTO_SCROLL), value: Stored::Flag(self.auto_scroll) },
        );
        assert(entry_views(store@) =~= entries_of(self@));
        store
    }

    /// Takes the settings that the user can change at will; the output
    /// device stays.
    pub fn update_settings(
        &mut self,
        theme: String,
        volume_factor: u32,
        auto_backup: bool,
        auto_next: bool,
        auto_play: bool,
        auto_scroll: bool,
    )
        ensures
            final(self)@ == (SettingsView {
                theme: theme@,
                sound_device: old(self)@.sound_device,
                volume_factor,
                auto_backup,
                auto_next,
                auto_play,
                auto_scroll,
            }),
    {
        self.theme = theme;
        self.volume_factor = volume_factor;
        self.auto_backup = auto_backup;
        self.auto_next = auto_next;
        self.auto_play = auto_play;
        self.auto_scroll = auto_scroll;
    }

    /// Takes the name of the output device; everything else stays.
    pub fn select_audio_output_device(&mut self, device_name: String)
        ensures
            final(self)@ == (SettingsView { sound_device: Some(device_name@), ..old(self)@ }),
    {
        self.sound_device = Some(device_name);
    }
}

/// What is stored of the settings is read back as those settings.
pub proof fn lemma_settings_round_trip(s: SettingsView)
    ensures
        settings_of(entries_of(s)) == s,
{
    reveal_strlit("appSettings.theme");
    reveal_strlit("appSettings.sound_device");
    reveal_strlit("appSettings.volume_factor");
    reveal_strlit("appSettings.auto_backup");
    reveal_strlit("appSettings.auto_next");
    reveal_strlit("appSettings.auto_play");
    reveal_strlit("appSettings.auto_scroll");
    let e = entries_of(s);
    reveal_with_fuel(lookup, 8);
    assert(KEY_THEME@.len() == 17);
    assert(KEY_SOUND_DEVICE@.len() == 24);
    assert(KEY_VOLUME_FACTOR@.len() == 25);
    assert(KEY_AUTO_BACKUP@.len() == 23);
    assert(KEY_AUTO_NEXT@.len() == 21);
    assert(KEY_AUTO_PLAY@.len() == 21);
    assert(KEY_AUTO_SCROLL@.len() == 23);
    assert(KEY_AUTO_NEXT@[18] != KEY_AUTO_PLAY@[18]);
    assert(KEY_AUTO_BACKUP@[17] != KEY_AUTO_SCROLL@[17]);
}

} // verus!
