//! Note tabs and the encrypted note store.
//!
//! All tabs are kept in one encrypted file holding a JSON array of tabs. The
//! JSON text itself is produced and parsed by the caller; this module decides
//! what is stored and what a stored file opens to.

use vstd::prelude::*;
use crate::crypto::{decrypt, failure_message, opened_notes, OpenFailure};
use crate::text::{chars_of, slice_chars, string_from_chars, trim_chars, trim_spec, trim_start_chars, trim_start_spec};

verus! {

/// At most this many tabs are stored.
pub const MAX_STORED_TABS: usize = 5;

/// Stored tab names are cut to this many characters.
pub const MAX_NAME_CHARS: usize = 64;

/// One note tab.
#[derive(Debug)]
pub struct Tab {
    pub id: u32,
    pub name: String,
    pub content: String,
    /// Screen-privacy lock. It adds no separate encryption layer: all tabs
    /// share the same master key.
    pub locked: bool,
}

pub struct TabModel {
    pub id: u32,
    pub name: Seq<char>,
    pub content: Seq<char>,
    pub locked: bool,
}

impl View for Tab {
    type V = TabModel;

    open spec fn view(&self) -> TabModel {
        TabModel { id: self.id, name: self.name@, content: self.content@, locked: self.locked }
    }
}

pub open spec fn tabs_view(v: Seq<Tab>) -> Seq<TabModel> {
    v.map_values(|t: Tab| t@)
}


/// The persisted configuration: the master-password hash once set.
#[derive(Debug)]
pub struct Config {
    pub password_hash: Option<String>,
}

impl Default for Config {
    fn default() -> (c: Config)
        ensures
            c.password_hash is None,
    {
        Config { password_hash: None }
    }
}

pub open spec fn first_tab_model(content: Seq<char>) -> TabModel {
    TabModel { id: 1, name: "Note 1"@, content, locked: false }
}

/// The tabs of a new vault: one empty tab named "Note 1".
pub fn default_tabs() -> (r: Vec<Tab>)
    ensures
        tabs_view(r@) == seq![first_tab_model(Seq::empty())],
{
    let t = Tab { id: 1, name: String::from_str("Note 1"), content: String::new(), locked: false };
    let r = vec![t];
    proof {
        assert(tabs_view(r@) =~= seq![first_tab_model(Seq::empty())]);
    }
    r
}

pub open spec fn min_int(a: int, b: int) -> int {
    if a < b {
        a
    } else {
        b
    }
}

/// A tab as stored: its name cut to 64 characters.
pub open spec fn stored_tab(t: TabModel) -> TabModel {
    TabModel { name: t.name.take(min_int(t.name.len() as int, MAX_NAME_CHARS as int)), ..t }
}

/// The tabs as stored: the first five, names cut to 64 characters.
pub open spec fn stored_tabs(tabs: Seq<TabModel>) -> Seq<TabModel> {
    tabs.take(min_int(tabs.len() as int, MAX_STORED_TABS as int)).map_values(|t: TabModel| stored_tab(t))
}

/// The tabs that `save_tabs` writes: the first five, with names cut to 64
/// characters.
pub fn sanitize_tabs(tabs: &[Tab]) -> (r: Vec<Tab>)
    ensures
        tabs_view(r@) == stored_tabs(tabs_view(tabs@)),
        r.len() <= MAX_STORED_TABS,
        forall|k: int| 0 <= k < r.len() ==> (#[trigger] r@[k]).name@.len() <= MAX_NAME_CHARS,
{
    let n = if tabs.len() < MAX_STORED_TABS {
        tabs.len()
    } else {
        MAX_STORED_TABS
    };
    let mut r: Vec<Tab> = Vec::new();
    let mut i: usize = 0;
    while i < n
        invariant
            i <= n <= tabs.len(),
            n <= MAX_STORED_TABS,
            n == min_int(tabs.len() as int, MAX_STORED_TABS as int),
            tabs_view(r@) == stored_tabs(tabs_view(tabs@)).take(i as int),
            r.len() == i,
            forall|k: int| 0 <= k < r.len() ==> (#[trigger] r@[k]).name@.len() <= MAX_NAME_CHARS,
        decreases n - i,
    {
        let t = &tabs[i];
        let name_chars = chars_of(t.name.as_str());
        let keep = if name_chars.len() < MAX_NAME_CHARS {
            name_chars.len()
        } else {
            MAX_NAME_CHARS
        };
        let name = string_from_chars(slice_chars(name_chars.as_slice(), 0, keep).as_slice());
        let st = Tab { id: t.id, name, content: t.content.clone(), locked: t.locked };
        proof {
            assert(st@ == stored_tab(tabs_view(tabs@)[i as int]));
            assert(tabs_view(r@.push(st)) =~= tabs_view(r@).push(st@));
            assert(stored_tabs(tabs_view(tabs@)).take(i + 1) =~= stored_tabs(tabs_view(tabs@)).take(
                i as int,
            ).push(st@));
        }
        r.push(st);
        i += 1;
    }
    proof {
        assert(stored_tabs(tabs_view(tabs@)).take(n as int) =~= stored_tabs(tabs_view(tabs@)));
    }
    r
}

/// What a notes file opens to, before any JSON is parsed.
pub enum StoredNotes {
    /// Tabs that need no parsing.
    Tabs(Vec<Tab>),
    /// The decrypted text: a JSON array of tabs.
    Json(String),
}

pub enum StoredNotesModel {
    Tabs(Seq<TabModel>),
    Json(Seq<char>),
}

impl View for StoredNotes {
    type V = StoredNotesModel;

    open spec fn view(&self) -> StoredNotesModel {
        match self {
            StoredNotes::Tabs(v) => StoredNotesModel::Tabs(tabs_view(v@)),
            StoredNotes::Json(s) => StoredNotesModel::Json(s@),
        }
    }
}

/// What a notes file holding `enc` (or no file) opens to under a password:
/// no file or a blank file gives the default tabs; otherwise the trimmed text
/// is decrypted, and a plaintext starting (after whitespace) with `[` is the
/// JSON array of tabs, while any other plaintext is a single tab's content.
pub open spec fn notes_outcome(enc: Option<Seq<char>>, password: Seq<char>) -> Result<StoredNotesModel, OpenFailure> {
    match enc {
        None => Ok(StoredNotesModel::Tabs(seq![first_tab_model(Seq::empty())])),
        Some(e) => if trim_spec(e).len() == 0 {
            Ok(StoredNotesModel::Tabs(seq![first_tab_model(Seq::empty())]))
        } else {
            match opened_notes(trim_spec(e), password) {
                Err(f) => Err(f),
                Ok(raw) => if trim_start_spec(raw).len() > 0 && trim_start_spec(raw)[0] == '[' {
                    Ok(StoredNotesModel::Json(raw))
                } else {
                    Ok(StoredNotesModel::Tabs(seq![first_tab_model(raw)]))
                },
            }
        },
    }
}

/// Open the text of a notes file (`None` when there is no file) with a
/// password.
pub fn open_notes(enc: Option<&str>, password: &str) -> (r: Result<StoredNotes, &'static str>)
    ensures
        match notes_outcome(
            match enc {
                Some(e) => Some(e@),
                None => None,
            },
            password@,
        ) {
            Ok(m) => r matches Ok(n) && n@ == m,
            Err(f) => r matches Err(e) && e@ == failure_message(f),
        },
{
    let e = match enc {
        None => return Ok(StoredNotes::Tabs(default_tabs())),
        Some(e) => e,
    };
    let trimmed = trim_chars(chars_of(e).as_slice());
    if trimmed.len() == 0 {
        return Ok(StoredNotes::Tabs(default_tabs()));
    }
    let t = string_from_chars(trimmed.as_slice());
    let raw = match decrypt(t.as_str(), password) {
        Ok(raw) => raw,
        Err(msg) => return Err(msg),
    };
    let lead = trim_start_chars(chars_of(raw.as_str()).as_slice());
    if lead.len() > 0 && lead[0] == '[' {
        Ok(StoredNotes::Json(raw))
    } else {
        let tab = Tab { id: 1, name: String::from_str("Note 1"), content: raw, locked: false };
        let v = vec![tab];
        proof {
            assert(tabs_view(v@) =~= seq![first_tab_model(tab.content@)]);
        }
        Ok(StoredNotes::Tabs(v))
    }
}

/// A notes file holding a text that opens to `plain` under a password (as
/// every text that `encrypt` writes does) opens to that plaintext again: a
/// JSON array is handed back for parsing, anything else becomes the content
/// of the single default tab.
pub proof fn law_saved_notes_reopen(e: Seq<char>, password: Seq<char>, plain: Seq<char>)
    requires
        opened_notes(e, password) == Ok::<Seq<char>, OpenFailure>(plain),
        e.len() > 0,
        trim_spec(e) == e,
    ensures
        notes_outcome(Some(e), password) == (if trim_start_spec(plain).len() > 0
            && trim_start_spec(plain)[0] == '[' {
            Ok::<StoredNotesModel, OpenFailure>(StoredNotesModel::Json(plain))
        } else {
            Ok::<StoredNotesModel, OpenFailure>(StoredNotesModel::Tabs(seq![first_tab_model(plain)]))
        }),
{
}

} // verus!
