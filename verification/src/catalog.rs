use vstd::prelude::*;

use crate::text::{lowercase, str_equals, to_lowercase, trim, trimmed};
use crate::ui::UiImage;

use freedesktop_desktop_entry::DesktopEntry;

verus! {

/// Most launchable applications the catalog keeps.
pub const MAX_APPLICATIONS: usize = 512;

/// Most desktop files the catalog reads.
pub const MAX_DESKTOP_FILES: usize = 2048;

/// Most directories the catalog visits.
pub const MAX_DESKTOP_DIRECTORIES: usize = 1024;

/// Most directory entries the catalog lists.
pub const MAX_DIRECTORY_ENTRIES: usize = 8192;

/// Deepest directory nesting the catalog descends into.
pub const MAX_DESKTOP_DEPTH: usize = 8;

/// Largest desktop file the catalog reads, in bytes.
pub const MAX_DESKTOP_ENTRY_BYTES: u64 = 65536;

/// Most desktop file bytes one scan admits by file size.
pub const MAX_DESKTOP_TOTAL_BYTES: u64 = 8388608;

/// Largest icon file that is decoded, in bytes.
pub const MAX_ICON_FILE_BYTES: u64 = 1048576;

/// Most icons requested, cached and published at once.
pub const MAX_ICON_CACHE: usize = 48;

/// Whether an icon file of `length` bytes is decoded: it must hold something
/// and be at most 1 MiB.
pub fn icon_file_admitted(length: u64) -> (r: bool)
    ensures
        r == (0 < length <= MAX_ICON_FILE_BYTES),
{
    0 < length && length <= MAX_ICON_FILE_BYTES
}

/// The suffix of desktop file names.
pub open spec fn desktop_suffix() -> Seq<char> {
    ".desktop"@
}

/// `s` with every trailing ".desktop" removed.
pub open spec fn strip_desktop(s: Seq<char>) -> Seq<char>
    decreases s.len(),
{
    if s.len() >= 8 && s.subrange(s.len() - 8, s.len() as int) == desktop_suffix() {
        strip_desktop(s.take(s.len() - 8))
    } else {
        s
    }
}

/// The key an application id is compared by: trimmed, without ".desktop"
/// suffixes, lower-cased.
pub open spec fn normalized_id(s: Seq<char>) -> Seq<char> {
    lowercase(strip_desktop(trimmed(s)))
}

/// Normalizes an application id so that a window's id and a desktop file name match.
pub fn normalize_app_id(value: &str) -> (r: String)
    ensures
        r@ == normalized_id(value@),
{
    let t = trim(value);
    let ghost s = t@;
    let mut end = t.unicode_len();
    proof {
        reveal_strlit(".desktop");
        assert(s.take(end as int) =~= s);
    }
    while end >= 8 && str_equals(t.substring_char(end - 8, end), ".desktop")
        invariant
            s == t@,
            end <= s.len(),
            strip_desktop(s) == strip_desktop(s.take(end as int)),
        decreases end,
    {
        proof {
            reveal_strlit(".desktop");
            let p = s.take(end as int);
            assert(p.subrange(p.len() - 8, p.len() as int) =~= s.subrange(end - 8, end as int));
            assert(p.take(p.len() - 8) =~= s.take(end - 8));
        }
        end = end - 8;
    }
    proof {
        reveal_strlit(".desktop");
        let p = s.take(end as int);
        if end >= 8 {
            assert(p.subrange(p.len() - 8, p.len() as int) =~= s.subrange(end - 8, end as int));
        }
    }
    let stem = t.substring_char(0, end);
    assert(stem@ =~= s.take(end as int));
    to_lowercase(stem)
}

/// The ids kept from `ids`: in order, at most `cap`, and none whose normalized
/// id equals that of an earlier kept id.
pub open spec fn first_by_key(ids: Seq<Seq<char>>, cap: int) -> Seq<Seq<char>>
    decreases ids.len(),
{
    if ids.len() == 0 {
        seq![]
    } else {
        let kept = first_by_key(ids.drop_last(), cap);
        let id = ids.last();
        if kept.len() >= cap {
            kept
        } else if exists|k: int| 0 <= k < kept.len() && normalized_id(#[trigger] kept[k]) == normalized_id(id) {
            kept
        } else {
            kept.push(id)
        }
    }
}

/// The views of a list of strings.
pub open spec fn strings_view(v: Seq<String>) -> Seq<Seq<char>> {
    v.map_values(|s: String| s@)
}

/// Coalesces icon requests: keeps the first request of each normalized id, at most 48.
pub fn unique_icon_requests(ids: Vec<String>) -> (r: Vec<String>)
    ensures
        strings_view(r@) == first_by_key(strings_view(ids@), MAX_ICON_CACHE as int),
        r@.len() <= MAX_ICON_CACHE,
{
    first_by_normalized_id(&ids, MAX_ICON_CACHE)
}

/// Keeps the first id of each normalized id, at most `cap` of them.
fn first_by_normalized_id(ids: &Vec<String>, cap: usize) -> (r: Vec<String>)
    ensures
        strings_view(r@) == first_by_key(strings_view(ids@), cap as int),
        r@.len() <= cap,
{
    let ghost all = strings_view(ids@);
    let mut unique: Vec<String> = Vec::new();
    let mut i: usize = 0;
    while i < ids.len()
        invariant
            i <= ids@.len(),
            all == strings_view(ids@),
            strings_view(unique@) == first_by_key(all.take(i as int), cap as int),
            unique@.len() <= cap,
        decreases ids@.len() - i,
    {
        assert(all.take(i + 1).drop_last() =~= all.take(i as int));
        assert(all.take(i + 1).last() == ids@[i as int]@);
        if unique.len() >= cap {
            i = i + 1;
            continue;
        }
        let key = normalize_app_id(ids[i].as_str());
        let mut seen = false;
        let mut k: usize = 0;
        while k < unique.len()
            invariant
                k <= unique@.len(),
                key@ == normalized_id(ids@[i as int]@),
                seen == exists|j: int| 0 <= j < k && normalized_id(#[trigger] unique@[j]@) == key@,
            decreases unique@.len() - k,
        {
            let other = normalize_app_id(unique[k].as_str());
            if other == key {
                seen = true;
            }
            k = k + 1;
        }
        proof {
            let kept = strings_view(unique@);
            if seen {
                let j = choose|j: int| 0 <= j < unique@.len() && normalized_id(#[trigger] unique@[j]@) == key@;
                assert(kept[j] == unique@[j]@);
            } else {
                assert forall|j: int| 0 <= j < kept.len() implies normalized_id(#[trigger] kept[j]) != normalized_id(ids@[i as int]@) by {
                    assert(kept[j] == unique@[j]@);
                }
            }
        }
        if !seen {
            let ghost before = unique@;
            unique.push(ids[i].clone());
            assert(strings_view(unique@) =~= strings_view(before).push(ids@[i as int]@));
        }
        i = i + 1;
    }
    assert(all.take(ids@.len() as int) =~= all);
    unique
}

} // verus!

verus! {

/// A launchable application as the shell lists it.
#[derive(Clone, Debug)]
pub struct ApplicationSummary {
    pub id: String,
    pub name: String,
    pub generic_name: String,
    pub keywords: Vec<String>,
    /// Window application ids that belong to this application.
    pub window_app_ids: Vec<String>,
    pub exec_argv: Vec<String>,
    pub icon: Option<UiImage>,
}

/// An application with the name of its icon, before the icon is loaded.
#[derive(Clone, Debug)]
pub struct CatalogEntry {
    pub summary: ApplicationSummary,
    pub icon_name: Option<String>,
}

/// What admission reads of a desktop file.
#[derive(Clone, Debug)]
pub struct EntryFlags {
    pub appid: String,
    pub hidden: bool,
    pub no_display: bool,
    /// The `Type` key.
    pub kind: Option<String>,
    /// The `Exec` key.
    pub exec_line: Option<String>,
    /// The `Exec` key split into arguments, when it parses.
    pub argv: Option<Vec<String>>,
}

/// The texts a listed application shows, read from its desktop file.
#[derive(Clone, Debug)]
pub struct EntryLabels {
    pub name: Option<String>,
    pub generic_name: Option<String>,
    pub keywords: Option<Vec<String>>,
    pub startup_wm_class: Option<String>,
    pub icon: Option<String>,
}

/// What `freedesktop_desktop_entry` reads from the desktop file `source` at `path`
/// for admission, or `None` when it does not parse. The crate is built without
/// its gettext support, so this depends on `path` and `source` alone.
pub uninterp spec fn desktop_entry_flags(path: Seq<char>, source: Seq<char>) -> Option<EntryFlags>;

/// The unlocalized labels `freedesktop_desktop_entry` reads from the desktop file
/// `source` at `path`, or `None` when it does not parse. Without gettext support
/// no label is looked up in a translation catalogue.
pub uninterp spec fn desktop_entry_labels(path: Seq<char>, source: Seq<char>) -> Option<EntryLabels>;

/// `DesktopEntry::from_str` without locales, then `appid`, `hidden`, `no_display`,
/// `type_`, `exec` and `parse_exec`: named `desktop_entry_flags`.
#[verifier::external_body]
fn read_entry_flags(path: &str, source: &str) -> (r: Option<EntryFlags>)
    ensures
        r == desktop_entry_flags(path@, source@),
{
    let entry = match DesktopEntry::from_str(path, source, Some(&[] as &[&str])) {
        Ok(entry) => entry,
        Err(_) => return None,
    };
    Some(EntryFlags {
        appid: entry.appid.clone(),
        hidden: entry.hidden(),
        no_display: entry.no_display(),
        kind: entry.type_().map(str::to_owned),
        exec_line: entry.exec().map(str::to_owned),
        argv: entry.parse_exec().ok(),
    })
}

/// `DesktopEntry::from_str` without locales, then `name`, `generic_name`,
/// `keywords`, `startup_wm_class` and `icon`: named `desktop_entry_labels`.
#[verifier::external_body]
fn read_entry_labels(path: &str, source: &str) -> (r: Option<EntryLabels>)
    ensures
        r == desktop_entry_labels(path@, source@),
{
    let none: &[&str] = &[];
    let entry = match DesktopEntry::from_str(path, source, Some(none)) {
        Ok(entry) => entry,
        Err(_) => return None,
    };
    Some(EntryLabels {
        name: entry.name(none).map(|v| v.into_owned()),
        generic_name: entry.generic_name(none).map(|v| v.into_owned()),
        keywords: entry.keywords(none).map(|k| k.into_iter().map(|v| v.into_owned()).collect()),
        startup_wm_class: entry.startup_wm_class().map(str::to_owned),
        icon: entry.icon().map(str::to_owned),
    })
}

/// Whether a desktop file describes something the catalog lists: shown, of
/// type Application (or untyped), with an `Exec` key that parses to arguments.
pub open spec fn launchable(f: EntryFlags) -> bool {
    &&& !f.hidden
    &&& !f.no_display
    &&& (f.kind matches Some(k) ==> k@ == "Application"@)
    &&& f.exec_line is Some
    &&& f.argv matches Some(argv) && argv@.len() > 0
}

/// Whether `id` is among `seen`.
pub open spec fn seen_id(seen: Seq<String>, id: Seq<char>) -> bool {
    exists|k: int| 0 <= k < seen.len() && (#[trigger] seen[k])@ == id
}

/// The window ids an application may appear under, before removing repeats:
/// its id, its id without a ".desktop" suffix, and its non-empty window class.
pub open spec fn alias_candidates(appid: Seq<char>, class: Option<Seq<char>>) -> Seq<Seq<char>> {
    let base = seq![appid];
    let with_stem = if appid.len() >= 8 && appid.subrange(appid.len() - 8, appid.len() as int) == desktop_suffix() {
        base.push(appid.take(appid.len() - 8))
    } else {
        base
    };
    match class {
        Some(c) => if c.len() > 0 { with_stem.push(c) } else { with_stem },
        None => with_stem,
    }
}

/// The window ids an application answers to.
pub open spec fn window_aliases(appid: Seq<char>, class: Option<Seq<char>>) -> Seq<Seq<char>> {
    let c = alias_candidates(appid, class);
    first_by_key(c, c.len() as int)
}

/// A label's text, if present.
pub open spec fn option_view(o: Option<String>) -> Option<Seq<char>> {
    match o {
        Some(s) => Some(s@),
        None => None,
    }
}

fn option_text(o: &Option<String>) -> (r: Option<&str>)
    ensures
        match r {
            Some(t) => option_view(*o) == Some(t@),
            None => o is None,
        },
{
    match o {
        Some(s) => Some(s.as_str()),
        None => None,
    }
}

fn window_alias_list(appid: &String, class: Option<&str>) -> (r: Vec<String>)
    ensures
        strings_view(r@) == window_aliases(appid@, match class {
            Some(c) => Some(c@),
            None => None,
        }),
{
    let ghost cv = match class {
        Some(c) => Some(c@),
        None => None,
    };
    let mut candidates: Vec<String> = Vec::new();
    candidates.push(appid.clone());
    let n = appid.as_str().unicode_len();
    proof {
        reveal_strlit(".desktop");
    }
    if n >= 8 && str_equals(appid.as_str().substring_char(n - 8, n), ".desktop") {
        candidates.push(String::from_str(appid.as_str().substring_char(0, n - 8)));
    }
    match class {
        Some(c) => {
            if !c.is_empty() {
                candidates.push(String::from_str(c));
            }
        },
        None => {},
    }
    assert(strings_view(candidates@) =~= alias_candidates(appid@, cv));
    let cap = candidates.len();
    first_by_normalized_id(&candidates, cap)
}

/// The summary listed for an admitted desktop file.
pub open spec fn summary_fits(s: ApplicationSummary, f: EntryFlags, l: Option<EntryLabels>) -> bool {
    let name = match l { Some(l) => option_view(l.name), None => None };
    let generic = match l { Some(l) => option_view(l.generic_name), None => None };
    let keywords = match l {
        Some(l) => match l.keywords { Some(k) => strings_view(k@), None => seq![] },
        None => seq![],
    };
    let class = match l { Some(l) => option_view(l.startup_wm_class), None => None };
    &&& s.id@ == f.appid@
    &&& s.name@ == (match name { Some(n) => n, None => f.appid@ })
    &&& s.generic_name@ == (match generic { Some(g) => g, None => Seq::<char>::empty() })
    &&& strings_view(s.keywords@) == (if keywords.len() <= 32 { keywords } else { keywords.take(32) })
    &&& strings_view(s.window_app_ids@) == window_aliases(f.appid@, class)
    &&& f.argv == Some(s.exec_argv)
    &&& s.icon is None
}

/// Admits a parsed desktop file into the catalog unless it is hidden, not an
/// application, not launchable, or an id already in `seen`; an admitted id is
/// added to `seen`.
pub fn admit_entry(flags: EntryFlags, labels: Option<EntryLabels>, seen: &mut Vec<String>) -> (r: Option<CatalogEntry>)
    ensures
        r is Some <==> launchable(flags) && !seen_id(old(seen)@, flags.appid@),
        flags.hidden || flags.no_display ==> r is None,
        r is Some ==> final(seen)@ == old(seen)@.push(flags.appid),
        r is None ==> final(seen)@ == old(seen)@,
        r matches Some(e) ==> summary_fits(e.summary, flags, labels) && option_view(e.icon_name) == (match labels {
            Some(l) => option_view(l.icon),
            None => None,
        }),
{
    let ghost lab = labels;
    if flags.hidden || flags.no_display {
        return None;
    }
    match &flags.kind {
        Some(k) => {
            if !str_equals(k.as_str(), "Application") {
                return None;
            }
        },
        None => {},
    }
    if flags.exec_line.is_none() {
        return None;
    }
    let argv = match flags.argv {
        Some(argv) => argv,
        None => return None,
    };
    if argv.len() == 0 {
        return None;
    }
    let mut k: usize = 0;
    while k < seen.len()
        invariant
            k <= seen@.len(),
            forall|j: int| 0 <= j < k ==> (#[trigger] seen@[j])@ != flags.appid@,
        decreases seen@.len() - k,
    {
        if seen[k] == flags.appid {
            return None;
        }
        k = k + 1;
    }
    seen.push(flags.appid.clone());
    let (name, generic_name, keywords, class, icon_name) = match labels {
        Some(l) => {
            let class = match &l.startup_wm_class {
                Some(c) => Some(String::from_str(c.as_str())),
                None => None,
            };
            (l.name, l.generic_name, l.keywords, class, l.icon)
        },
        None => (None, None, None, None, None),
    };
    let name = match name {
        Some(n) => n,
        None => flags.appid.clone(),
    };
    let generic_name = match generic_name {
        Some(g) => g,
        None => String::new(),
    };
    let mut keywords = match keywords {
        Some(k) => k,
        None => Vec::new(),
    };
    let ghost all_keywords = strings_view(keywords@);
    keywords.truncate(32);
    assert(strings_view(keywords@) =~= (if all_keywords.len() <= 32 { all_keywords } else { all_keywords.take(32) }));
    let window_app_ids = window_alias_list(&flags.appid, option_text(&class));
    let ghost lname = match lab { Some(l) => option_view(l.name), None => None };
    let ghost lclass = match lab { Some(l) => option_view(l.startup_wm_class), None => None };
    assert(name@ == (match lname { Some(n) => n, None => flags.appid@ }));
    assert(option_view(class) == lclass);
    assert(generic_name@ == (match (match lab { Some(l) => option_view(l.generic_name), None => None }) { Some(g) => g, None => Seq::<char>::empty() }));
    assert(all_keywords == (match lab { Some(l) => match l.keywords { Some(k) => strings_view(k@), None => seq![] }, None => seq![] }));
    assert(option_view(icon_name) == (match lab { Some(l) => option_view(l.icon), None => None }));
    assert(flags.argv == Some(argv));
    assert(strings_view(window_app_ids@) == window_aliases(flags.appid@, lclass));
    Some(CatalogEntry {
        summary: ApplicationSummary {
            id: flags.appid,
            name,
            generic_name,
            keywords,
            window_app_ids,
            exec_argv: argv,
            icon: None,
        },
        icon_name,
    })
}

/// The catalog entry a desktop file yields, or `None` when it does not parse or
/// is not admitted (see `admit_entry`).
pub fn read_catalog_entry(path: &str, source: &str, seen: &mut Vec<String>) -> (r: Option<CatalogEntry>)
    ensures
        match desktop_entry_flags(path@, source@) {
            None => r is None && final(seen)@ == old(seen)@,
            Some(flags) => {
                &&& (r is Some <==> launchable(flags) && !seen_id(old(seen)@, flags.appid@))
                &&& (r is Some ==> final(seen)@ == old(seen)@.push(flags.appid))
                &&& (r is None ==> final(seen)@ == old(seen)@)
                &&& (r matches Some(e) ==> summary_fits(e.summary, flags, desktop_entry_labels(path@, source@)))
                &&& (r matches Some(e) ==> option_view(e.icon_name) == (match desktop_entry_labels(path@, source@) {
                    Some(l) => option_view(l.icon),
                    None => None,
                }))
            },
        },
{
    let flags = match read_entry_flags(path, source) {
        Some(f) => f,
        None => return None,
    };
    let labels = read_entry_labels(path, source);
    admit_entry(flags, labels, seen)
}

} // verus!

verus! {

/// New catalog results for the shell: the application list once scanned, and
/// decoded icons by application id.
#[derive(Debug)]
pub struct AppCatalogUpdate {
    pub applications: Option<Vec<ApplicationSummary>>,
    pub icons: Vec<(String, UiImage)>,
}

/// The icons kept when newer icons are published after older ones not yet
/// taken: the older first, then the newer, and only the last 48.
pub open spec fn merged_icons(previous: Seq<(String, UiImage)>, newer: Seq<(String, UiImage)>) -> Seq<(String, UiImage)> {
    let all = previous + newer;
    if all.len() > MAX_ICON_CACHE { all.skip(all.len() - MAX_ICON_CACHE) } else { all }
}

/// Folds an update into the one still waiting to be taken, if any: a newer
/// application list replaces the older one, and icons accumulate up to 48.
pub fn merge_update(previous: Option<AppCatalogUpdate>, update: AppCatalogUpdate) -> (r: AppCatalogUpdate)
    ensures
        match previous {
            None => r == update,
            Some(p) => {
                &&& r.applications == (if update.applications is Some { update.applications } else { p.applications })
                &&& r.icons@ == merged_icons(p.icons@, update.icons@)
            },
        },
{
    let mut update = update;
    match previous {
        None => update,
        Some(p) => {
            let mut icons = p.icons;
            let mut newer = update.icons;
            icons.append(&mut newer);
            let applications = match update.applications {
                Some(a) => Some(a),
                None => p.applications,
            };
            if icons.len() > MAX_ICON_CACHE {
                let at = icons.len() - MAX_ICON_CACHE;
                let kept = icons.split_off(at);
                AppCatalogUpdate { applications, icons: kept }
            } else {
                AppCatalogUpdate { applications, icons }
            }
        },
    }
}

/// Decoded icons by application id, oldest first, at most 48.
pub struct IconCache {
    entries: Vec<(String, UiImage)>,
}

impl IconCache {
    /// The cache never holds more than 48 icons.
    #[verifier::type_invariant]
    spec fn bounded(&self) -> bool {
        self.entries@.len() <= MAX_ICON_CACHE
    }

    /// The cached icons, oldest first.
    pub closed spec fn view_entries(&self) -> Seq<(String, UiImage)> {
        self.entries@
    }

    /// Whether some cached icon has the id `id`.
    pub open spec fn holds(&self, id: Seq<char>) -> bool {
        exists|k: int| 0 <= k < self.view_entries().len() && (#[trigger] self.view_entries()[k]).0@ == id
    }

    /// An empty cache.
    pub fn new() -> (c: Self)
        ensures
            c.view_entries().len() == 0,
    {
        IconCache { entries: Vec::new() }
    }

    /// The number of cached icons.
    pub fn len(&self) -> (n: usize)
        ensures
            n == self.view_entries().len(),
            n <= MAX_ICON_CACHE,
    {
        proof {
            use_type_invariant(self);
        }
        self.entries.len()
    }

    /// The position of the icon cached for `id`, the oldest if several.
    pub fn position(&self, id: &String) -> (r: Option<usize>)
        ensures
            match r {
                Some(k) => k < self.view_entries().len() && self.view_entries()[k as int].0@ == id@
                    && forall|j: int| 0 <= j < k ==> (#[trigger] self.view_entries()[j]).0@ != id@,
                None => !self.holds(id@),
            },
    {
        let mut k: usize = 0;
        while k < self.entries.len()
            invariant
                k <= self.entries@.len(),
                forall|j: int| 0 <= j < k ==> (#[trigger] self.entries@[j]).0@ != id@,
            decreases self.entries@.len() - k,
        {
            if self.entries[k].0 == *id {
                return Some(k);
            }
            k = k + 1;
        }
        None
    }

    /// The icon cached for `id`, if any.
    pub fn find(&self, id: &String) -> (r: Option<&UiImage>)
        ensures
            r is Some <==> self.holds(id@),
            r matches Some(img) ==> exists|k: int| 0 <= k < self.view_entries().len()
                && self.view_entries()[k].0@ == id@ && self.view_entries()[k].1 == *img,
    {
        match self.position(id) {
            Some(k) => Some(&self.entries[k].1),
            None => None,
        }
    }

    /// Caches `icon` for `id` unless an icon for `id` is cached already; when the
    /// cache is full the oldest icon goes first.
    pub fn insert(&mut self, id: String, icon: UiImage)
        ensures
            old(self).holds(id@) ==> final(self).view_entries() == old(self).view_entries(),
            !old(self).holds(id@) ==> final(self).view_entries() == (if old(self).view_entries().len() >= MAX_ICON_CACHE {
                old(self).view_entries().drop_first()
            } else {
                old(self).view_entries()
            }).push((id, icon)),
            final(self).view_entries().len() <= MAX_ICON_CACHE,
    {
        proof {
            use_type_invariant(&*self);
        }
        if self.position(&id).is_some() {
            return;
        }
        let mut entries: Vec<(String, UiImage)> = Vec::new();
        std::mem::swap(&mut entries, &mut self.entries);
        if entries.len() >= MAX_ICON_CACHE {
            let _ = entries.remove(0);
        }
        entries.push((id, icon));
        self.entries = entries;
    }
}

/// What a scan may still read, and how much it has read.
pub struct ScanBounds {
    files: usize,
    directories: usize,
    directory_entries: usize,
    total_bytes: u64,
    exhausted: bool,
}

/// Whether a desktop file of `length` bytes is read, skipped, or ends the scan.
#[derive(Clone, Copy, Debug, PartialEq, Eq, Structural)]
pub enum FileAdmission {
    Read,
    Skip,
    Stop,
}

impl ScanBounds {
    /// Desktop files counted so far.
    pub closed spec fn files_seen(&self) -> nat {
        self.files as nat
    }

    /// Directories entered so far.
    pub closed spec fn directories_seen(&self) -> nat {
        self.directories as nat
    }

    /// Directory entries listed so far.
    pub closed spec fn entries_seen(&self) -> nat {
        self.directory_entries as nat
    }

    /// Desktop file bytes read so far.
    pub closed spec fn bytes_read(&self) -> nat {
        self.total_bytes as nat
    }

    /// Whether a limit was hit and the scan ends.
    pub closed spec fn is_exhausted(&self) -> bool {
        self.exhausted
    }

    /// Every scan stays within its limits.
    #[verifier::type_invariant]
    spec fn bounded(&self) -> bool {
        self.within_limits()
    }

    /// The bounds a scan never exceeds.
    pub open spec fn within_limits(&self) -> bool {
        &&& self.files_seen() <= MAX_DESKTOP_FILES
        &&& self.directories_seen() <= MAX_DESKTOP_DIRECTORIES
        &&& self.entries_seen() <= MAX_DIRECTORY_ENTRIES
        &&& self.bytes_read() <= MAX_DESKTOP_TOTAL_BYTES
    }

    /// A fresh scan.
    pub fn new() -> (b: Self)
        ensures
            b.within_limits(),
            b.files_seen() == 0 && b.directories_seen() == 0 && b.entries_seen() == 0 && b.bytes_read() == 0,
            !b.is_exhausted(),
    {
        ScanBounds { files: 0, directories: 0, directory_entries: 0, total_bytes: 0, exhausted: false }
    }

    /// Whether the scan has ended.
    pub fn exhausted(&self) -> (r: bool)
        ensures
            r == self.is_exhausted(),
    {
        self.exhausted
    }

    /// Whether the scan goes on while `listed` applications are kept: it stops
    /// once a limit was hit or 512 applications are kept.
    pub fn may_continue(&self, listed: usize) -> (r: bool)
        ensures
            r == (!self.is_exhausted() && listed < MAX_APPLICATIONS),
    {
        !self.exhausted && listed < MAX_APPLICATIONS
    }

    /// Enters a directory at `depth` while `listed` applications are kept; refuses
    /// past depth 8, after the scan ended, after 1024 directories, or once 512
    /// applications are kept.
    pub fn enter_directory(&mut self, depth: usize, listed: usize) -> (r: bool)
        ensures
            r == (depth <= MAX_DESKTOP_DEPTH && !old(self).is_exhausted()
                && old(self).directories_seen() < MAX_DESKTOP_DIRECTORIES && listed < MAX_APPLICATIONS),
            final(self).directories_seen() == old(self).directories_seen() + (if r { 1nat } else { 0nat }),
            final(self).files_seen() == old(self).files_seen(),
            final(self).entries_seen() == old(self).entries_seen(),
            final(self).bytes_read() == old(self).bytes_read(),
            final(self).is_exhausted() == old(self).is_exhausted(),
            final(self).within_limits(),
        no_unwind
    {
        proof {
            use_type_invariant(&*self);
        }
        if depth > MAX_DESKTOP_DEPTH || self.exhausted || self.directories >= MAX_DESKTOP_DIRECTORIES
            || listed >= MAX_APPLICATIONS {
            return false;
        }
        self.directories = self.directories + 1;
        true
    }

    /// Counts one listed directory entry; the scan ends instead after 8192.
    pub fn count_entry(&mut self) -> (r: bool)
        ensures
            r == (old(self).entries_seen() < MAX_DIRECTORY_ENTRIES),
            final(self).entries_seen() == old(self).entries_seen() + (if r { 1nat } else { 0nat }),
            final(self).is_exhausted() == (old(self).is_exhausted() || !r),
            final(self).files_seen() == old(self).files_seen(),
            final(self).directories_seen() == old(self).directories_seen(),
            final(self).bytes_read() == old(self).bytes_read(),
            final(self).within_limits(),
        no_unwind
    {
        proof {
            use_type_invariant(&*self);
        }
        if self.directory_entries >= MAX_DIRECTORY_ENTRIES {
            self.exhausted = true;
            return false;
        }
        self.directory_entries = self.directory_entries + 1;
        true
    }

    /// Counts one desktop file; the scan ends instead after 2048.
    pub fn count_file(&mut self) -> (r: bool)
        ensures
            r == (old(self).files_seen() < MAX_DESKTOP_FILES),
            final(self).files_seen() == old(self).files_seen() + (if r { 1nat } else { 0nat }),
            final(self).is_exhausted() == (old(self).is_exhausted() || !r),
            final(self).entries_seen() == old(self).entries_seen(),
            final(self).directories_seen() == old(self).directories_seen(),
            final(self).bytes_read() == old(self).bytes_read(),
            final(self).within_limits(),
        no_unwind
    {
        proof {
            use_type_invariant(&*self);
        }
        if self.files >= MAX_DESKTOP_FILES {
            self.exhausted = true;
            return false;
        }
        self.files = self.files + 1;
        true
    }

    /// Decides on a desktop file of `length` bytes: empty files and files over
    /// 64 KiB are skipped; a file that would take the total over 8 MiB ends the scan.
    pub fn admit_file(&mut self, length: u64) -> (r: FileAdmission)
        ensures
            r == (if length == 0 || length > MAX_DESKTOP_ENTRY_BYTES {
                FileAdmission::Skip
            } else if old(self).bytes_read() + length > MAX_DESKTOP_TOTAL_BYTES {
                FileAdmission::Stop
            } else {
                FileAdmission::Read
            }),
            final(self).is_exhausted() == (old(self).is_exhausted() || r == FileAdmission::Stop),
            final(self).files_seen() == old(self).files_seen(),
            final(self).entries_seen() == old(self).entries_seen(),
            final(self).directories_seen() == old(self).directories_seen(),
            final(self).bytes_read() == old(self).bytes_read(),
            final(self).within_limits(),
        no_unwind
    {
        proof {
            use_type_invariant(&*self);
        }
        if length == 0 || length > MAX_DESKTOP_ENTRY_BYTES {
            return FileAdmission::Skip;
        }
        if length > MAX_DESKTOP_TOTAL_BYTES - self.total_bytes {
            self.exhausted = true;
            return FileAdmission::Stop;
        }
        FileAdmission::Read
    }

    /// Desktop file bytes read so far.
    pub fn total_bytes(&self) -> (n: u64)
        ensures
            n == self.bytes_read(),
    {
        self.total_bytes
    }

    /// Records `count` bytes read from an admitted file. Bytes that would take
    /// the total past 8 MiB are not recorded: the scan ends instead.
    pub fn record_bytes(&mut self, count: u64) -> (r: bool)
        ensures
            r == (old(self).bytes_read() + count <= MAX_DESKTOP_TOTAL_BYTES),
            final(self).bytes_read() == old(self).bytes_read() + (if r { count as nat } else { 0nat }),
            final(self).is_exhausted() == (old(self).is_exhausted() || !r),
            final(self).files_seen() == old(self).files_seen(),
            final(self).entries_seen() == old(self).entries_seen(),
            final(self).directories_seen() == old(self).directories_seen(),
            final(self).within_limits(),
        no_unwind
    {
        proof {
            use_type_invariant(&*self);
        }
        if count > MAX_DESKTOP_TOTAL_BYTES - self.total_bytes {
            self.exhausted = true;
            return false;
        }
        self.total_bytes = self.total_bytes + count;
        true
    }
}

/// Whether a list of catalog entries keeps the scan's promises: at most 512,
/// each launchable by a non-empty command, with distinct ids all in `seen`.
pub open spec fn catalog_listed(entries: Seq<CatalogEntry>, seen: Seq<String>) -> bool {
    &&& entries.len() <= MAX_APPLICATIONS
    &&& forall|i: int| 0 <= i < entries.len() ==> (#[trigger] entries[i]).summary.exec_argv@.len() > 0
    &&& forall|i: int| 0 <= i < entries.len() ==> seen_id(seen, (#[trigger] entries[i]).summary.id@)
    &&& forall|i: int, j: int| 0 <= i < j < entries.len() ==>
            (#[trigger] entries[i]).summary.id@ != (#[trigger] entries[j]).summary.id@
}

/// One scan of the desktop files: its bounds, the ids seen, and the entries
/// listed so far.
pub struct CatalogScan {
    bounds: ScanBounds,
    seen: Vec<String>,
    entries: Vec<CatalogEntry>,
}

impl CatalogScan {
    /// The scan's bounds.
    pub closed spec fn scan_bounds(&self) -> ScanBounds {
        self.bounds
    }

    /// The entries listed so far, in the order read.
    pub closed spec fn listed(&self) -> Seq<CatalogEntry> {
        self.entries@
    }

    /// The application ids seen so far.
    pub closed spec fn seen_ids(&self) -> Seq<String> {
        self.seen@
    }

    #[verifier::type_invariant]
    spec fn keeps_promises(&self) -> bool {
        catalog_listed(self.entries@, self.seen@)
    }

    /// A scan that has read nothing.
    pub fn new() -> (s: Self)
        ensures
            s.listed().len() == 0,
            s.seen_ids().len() == 0,
            s.scan_bounds().files_seen() == 0,
            s.scan_bounds().directories_seen() == 0,
            s.scan_bounds().entries_seen() == 0,
            s.scan_bounds().bytes_read() == 0,
            !s.scan_bounds().is_exhausted(),
    {
        CatalogScan { bounds: ScanBounds::new(), seen: Vec::new(), entries: Vec::new() }
    }

    /// The number of entries listed so far.
    pub fn listed_count(&self) -> (n: usize)
        ensures
            n == self.listed().len(),
            n <= MAX_APPLICATIONS,
    {
        proof {
            use_type_invariant(self);
        }
        self.entries.len()
    }

    /// Whether the scan goes on (see `ScanBounds::may_continue`).
    pub fn may_continue(&self) -> (r: bool)
        ensures
            r == (!self.scan_bounds().is_exhausted() && self.listed().len() < MAX_APPLICATIONS),
    {
        self.bounds.may_continue(self.entries.len())
    }

    /// Enters a directory at `depth` (see `ScanBounds::enter_directory`).
    pub fn enter_directory(&mut self, depth: usize) -> (r: bool)
        ensures
            r == (depth <= MAX_DESKTOP_DEPTH && !old(self).scan_bounds().is_exhausted()
                && old(self).scan_bounds().directories_seen() < MAX_DESKTOP_DIRECTORIES
                && old(self).listed().len() < MAX_APPLICATIONS),
            final(self).listed() == old(self).listed(),
            final(self).seen_ids() == old(self).seen_ids(),
            final(self).scan_bounds().directories_seen() == old(self).scan_bounds().directories_seen() + (if r { 1nat } else { 0nat }),
            final(self).scan_bounds().is_exhausted() == old(self).scan_bounds().is_exhausted(),
    {
        proof {
            use_type_invariant(&*self);
        }
        let listed = self.entries.len();
        self.bounds.enter_directory(depth, listed)
    }

    /// Counts one listed directory entry (see `ScanBounds::count_entry`).
    pub fn count_entry(&mut self) -> (r: bool)
        ensures
            r == (old(self).scan_bounds().entries_seen() < MAX_DIRECTORY_ENTRIES),
            final(self).listed() == old(self).listed(),
            final(self).seen_ids() == old(self).seen_ids(),
            final(self).scan_bounds().is_exhausted() == (old(self).scan_bounds().is_exhausted() || !r),
    {
        proof {
            use_type_invariant(&*self);
        }
        self.bounds.count_entry()
    }

    /// Counts one desktop file (see `ScanBounds::count_file`).
    pub fn count_file(&mut self) -> (r: bool)
        ensures
            r == (old(self).scan_bounds().files_seen() < MAX_DESKTOP_FILES),
            final(self).listed() == old(self).listed(),
            final(self).seen_ids() == old(self).seen_ids(),
            final(self).scan_bounds().is_exhausted() == (old(self).scan_bounds().is_exhausted() || !r),
    {
        proof {
            use_type_invariant(&*self);
        }
        self.bounds.count_file()
    }

    /// Decides on a desktop file of `length` bytes (see `ScanBounds::admit_file`).
    pub fn admit_file(&mut self, length: u64) -> (r: FileAdmission)
        ensures
            r == (if length == 0 || length > MAX_DESKTOP_ENTRY_BYTES {
                FileAdmission::Skip
            } else if old(self).scan_bounds().bytes_read() + length > MAX_DESKTOP_TOTAL_BYTES {
                FileAdmission::Stop
            } else {
                FileAdmission::Read
            }),
            final(self).listed() == old(self).listed(),
            final(self).seen_ids() == old(self).seen_ids(),
            final(self).scan_bounds().is_exhausted() == (old(self).scan_bounds().is_exhausted() || r == FileAdmission::Stop),
    {
        proof {
            use_type_invariant(&*self);
        }
        self.bounds.admit_file(length)
    }

    /// Records the bytes read from a file (see `ScanBounds::record_bytes`).
    pub fn record_bytes(&mut self, count: u64) -> (r: bool)
        ensures
            r == (old(self).scan_bounds().bytes_read() + count <= MAX_DESKTOP_TOTAL_BYTES),
            final(self).listed() == old(self).listed(),
            final(self).seen_ids() == old(self).seen_ids(),
            final(self).scan_bounds().bytes_read() == old(self).scan_bounds().bytes_read() + (if r { count as nat } else { 0nat }),
            final(self).scan_bounds().is_exhausted() == (old(self).scan_bounds().is_exhausted() || !r),
    {
        proof {
            use_type_invariant(&*self);
        }
        self.bounds.record_bytes(count)
    }

    /// Reads the desktop file `source` of `length` bytes found at `depth` and
    /// lists its entry when it is admitted (see `read_catalog_entry`). Nothing is
    /// read once 512 entries are listed, nor from an empty file, a file over
    /// 64 KiB or one deeper than 8 directories.
    pub fn read_file(&mut self, path: &str, source: &str, length: u64, depth: usize) -> (r: bool)
        ensures
            !r ==> final(self).listed() == old(self).listed(),
            r ==> {
                &&& 0 < length <= MAX_DESKTOP_ENTRY_BYTES
                &&& depth <= MAX_DESKTOP_DEPTH
                &&& old(self).listed().len() < MAX_APPLICATIONS
                &&& desktop_entry_flags(path@, source@) matches Some(flags)
                &&& launchable(flags)
                &&& !seen_id(old(self).seen_ids(), flags.appid@)
                &&& final(self).listed().len() == old(self).listed().len() + 1
                &&& final(self).listed().drop_last() == old(self).listed()
                &&& summary_fits(final(self).listed().last().summary, flags, desktop_entry_labels(path@, source@))
            },
            (old(self).listed().len() < MAX_APPLICATIONS && 0 < length <= MAX_DESKTOP_ENTRY_BYTES
                && depth <= MAX_DESKTOP_DEPTH) ==> (r <==> (desktop_entry_flags(path@, source@) matches Some(flags)
                    && launchable(flags) && !seen_id(old(self).seen_ids(), flags.appid@))),
            final(self).scan_bounds() == old(self).scan_bounds(),
    {
        proof {
            use_type_invariant(&*self);
        }
        if self.entries.len() >= MAX_APPLICATIONS || length == 0 || length > MAX_DESKTOP_ENTRY_BYTES
            || depth > MAX_DESKTOP_DEPTH {
            return false;
        }
        let mut entries: Vec<CatalogEntry> = Vec::new();
        std::mem::swap(&mut entries, &mut self.entries);
        let mut seen: Vec<String> = Vec::new();
        std::mem::swap(&mut seen, &mut self.seen);
        let ghost old_seen = seen@;
        let ghost old_entries = entries@;
        let found = read_catalog_entry(path, source, &mut seen);
        let r = match found {
            Some(entry) => {
                let ghost flags = desktop_entry_flags(path@, source@).unwrap();
                proof {
                    assert forall|i: int| 0 <= i < old_entries.len() implies
                        (#[trigger] old_entries[i]).summary.id@ != flags.appid@ by {
                        if old_entries[i].summary.id@ == flags.appid@ {
                            assert(seen_id(old_seen, old_entries[i].summary.id@));
                        }
                    }
                    assert forall|i: int| 0 <= i < old_entries.len() implies
                        seen_id(seen@, (#[trigger] old_entries[i]).summary.id@) by {
                        let k = choose|k: int| 0 <= k < old_seen.len() && (#[trigger] old_seen[k])@ == old_entries[i].summary.id@;
                        assert(seen@[k] == old_seen[k]);
                    }
                    assert(seen@[old_seen.len() as int]@ == flags.appid@);
                }
                entries.push(entry);
                proof {
                    let e = entries@;
                    assert(e.drop_last() =~= old_entries);
                    assert forall|i: int| 0 <= i < e.len() implies seen_id(seen@, (#[trigger] e[i]).summary.id@) by {
                        if i < old_entries.len() {
                            assert(e[i] == old_entries[i]);
                        } else {
                            assert(seen@[old_seen.len() as int]@ == e[i].summary.id@);
                        }
                    }
                    assert forall|i: int, j: int| 0 <= i < j < e.len() implies
                        (#[trigger] e[i]).summary.id@ != (#[trigger] e[j]).summary.id@ by {
                        assert(e[i] == old_entries[i]);
                        if j < old_entries.len() {
                            assert(e[j] == old_entries[j]);
                        }
                    }
                    assert forall|i: int| 0 <= i < e.len() implies (#[trigger] e[i]).summary.exec_argv@.len() > 0 by {
                        if i < old_entries.len() {
                            assert(e[i] == old_entries[i]);
                        }
                    }
                }
                true
            },
            None => false,
        };
        self.seen = seen;
        self.entries = entries;
        r
    }

    /// The listed entries, in the order read: at most 512, each with a
    /// non-empty command, with pairwise distinct ids.
    pub fn into_entries(self) -> (r: Vec<CatalogEntry>)
        ensures
            r@ == self.listed(),
            catalog_listed(r@, self.seen_ids()),
    {
        proof {
            use_type_invariant(&self);
        }
        self.entries
    }
}

} // verus!

verus! {

/// Whether some alias of `e` normalizes to `key`.
pub open spec fn answers_to(e: CatalogEntry, key: Seq<char>) -> bool {
    exists|k: int| 0 <= k < e.summary.window_app_ids@.len()
        && normalized_id((#[trigger] e.summary.window_app_ids@[k])@) == key
}

/// The first catalog entry that a window with application id `app_id` belongs to.
pub fn entry_for_app_id(entries: &Vec<CatalogEntry>, app_id: &str) -> (r: Option<usize>)
    ensures
        match r {
            Some(i) => i < entries@.len() && answers_to(entries@[i as int], normalized_id(app_id@))
                && forall|j: int| 0 <= j < i ==> !answers_to(#[trigger] entries@[j], normalized_id(app_id@)),
            None => forall|j: int| 0 <= j < entries@.len() ==> !answers_to(#[trigger] entries@[j], normalized_id(app_id@)),
        },
{
    let key = normalize_app_id(app_id);
    let mut i: usize = 0;
    while i < entries.len()
        invariant
            i <= entries@.len(),
            key@ == normalized_id(app_id@),
            forall|j: int| 0 <= j < i ==> !answers_to(#[trigger] entries@[j], key@),
        decreases entries@.len() - i,
    {
        let aliases = &entries[i].summary.window_app_ids;
        let mut k: usize = 0;
        while k < aliases.len()
            invariant
                k <= aliases@.len(),
                i < entries@.len(),
                forall|j: int| 0 <= j < i ==> !answers_to(#[trigger] entries@[j], key@),
                *aliases == entries@[i as int].summary.window_app_ids,
                key@ == normalized_id(app_id@),
                forall|m: int| 0 <= m < k ==> normalized_id((#[trigger] aliases@[m])@) != key@,
            decreases aliases@.len() - k,
        {
            if normalize_app_id(aliases[k].as_str()) == key {
                assert(normalized_id(entries@[i as int].summary.window_app_ids@[k as int]@) == key@);
                return Some(i);
            }
            k = k + 1;
        }
        i = i + 1;
    }
    None
}


/// The index of the first entry in `entries` that answers to `key`.
pub open spec fn first_answering(entries: Seq<CatalogEntry>, key: Seq<char>) -> Option<int>
    decreases entries.len(),
{
    if entries.len() == 0 {
        None
    } else {
        match first_answering(entries.drop_last(), key) {
            Some(j) => Some(j),
            None => if answers_to(entries.last(), key) {
                Some(entries.len() - 1)
            } else {
                None
            },
        }
    }
}

/// Whether one of the entries at `targets` has the application id `id`.
pub open spec fn targets_id(entries: Seq<CatalogEntry>, targets: Seq<int>, id: Seq<char>) -> bool {
    exists|k: int| 0 <= k < targets.len() && entries[#[trigger] targets[k]].summary.id@ == id
}

/// The entries whose icons a request asks for, by index: for each requested id
/// in turn, the first entry it belongs to, unless an entry with the same
/// application id was taken already.
pub open spec fn icon_targets_spec(entries: Seq<CatalogEntry>, request: Seq<Seq<char>>) -> Seq<int>
    decreases request.len(),
{
    if request.len() == 0 {
        seq![]
    } else {
        let taken = icon_targets_spec(entries, request.drop_last());
        match first_answering(entries, normalized_id(request.last())) {
            None => taken,
            Some(j) => if targets_id(entries, taken, entries[j].summary.id@) {
                taken
            } else {
                taken.push(j)
            },
        }
    }
}

proof fn lemma_first_answering(entries: Seq<CatalogEntry>, key: Seq<char>, i: int)
    requires
        0 <= i <= entries.len(),
        forall|j: int| 0 <= j < i ==> !answers_to(#[trigger] entries[j], key),
    ensures
        i < entries.len() && answers_to(entries[i], key) ==> first_answering(entries, key) == Some(i),
        i == entries.len() ==> first_answering(entries, key) is None,
    decreases entries.len(),
{
    if entries.len() > 0 {
        let rest = entries.drop_last();
        if i < entries.len() {
            if i < rest.len() {
                lemma_first_answering(rest, key, i);
            } else {
                lemma_first_answering(rest, key, rest.len() as int);
            }
        } else {
            lemma_first_answering(rest, key, rest.len() as int);
        }
    }
}

pub(crate) proof fn lemma_first_answering_found(entries: Seq<CatalogEntry>, key: Seq<char>)
    ensures
        first_answering(entries, key) matches Some(j) ==> 0 <= j < entries.len() && answers_to(entries[j], key),
    decreases entries.len(),
{
    if entries.len() > 0 {
        lemma_first_answering_found(entries.drop_last(), key);
    }
}

/// The entry an application id belongs to, as `first_answering` states it.
pub fn first_entry_for(entries: &Vec<CatalogEntry>, app_id: &str) -> (r: Option<usize>)
    ensures
        match r {
            Some(i) => i < entries@.len() && first_answering(entries@, normalized_id(app_id@)) == Some(i as int),
            None => first_answering(entries@, normalized_id(app_id@)) is None,
        },
{
    let r = entry_for_app_id(entries, app_id);
    proof {
        match r {
            Some(i) => lemma_first_answering(entries@, normalized_id(app_id@), i as int),
            None => lemma_first_answering(entries@, normalized_id(app_id@), entries@.len() as int),
        }
    }
    r
}

/// The catalog entries whose icons `request` asks for, by index, in request
/// order: each requested id goes to the first entry it belongs to, and an entry
/// is taken once.
pub fn icon_targets(entries: &Vec<CatalogEntry>, request: &Vec<String>) -> (r: Vec<usize>)
    ensures
        r@.map_values(|i: usize| i as int) == icon_targets_spec(entries@, strings_view(request@)),
        forall|k: int| 0 <= k < r@.len() ==> r@[k] < entries@.len(),
{
    let ghost ids = strings_view(request@);
    let mut targets: Vec<usize> = Vec::new();
    let mut n: usize = 0;
    while n < request.len()
        invariant
            n <= request@.len(),
            ids == strings_view(request@),
            targets@.map_values(|i: usize| i as int) == icon_targets_spec(entries@, ids.take(n as int)),
            forall|k: int| 0 <= k < targets@.len() ==> targets@[k] < entries@.len(),
        decreases request@.len() - n,
    {
        let ghost before = targets@;
        let ghost taken = before.map_values(|i: usize| i as int);
        assert(ids.take(n + 1).drop_last() =~= ids.take(n as int));
        assert(ids.take(n + 1).last() == request@[n as int]@);
        let ghost spec_next = icon_targets_spec(entries@, ids.take(n + 1));
        match first_entry_for(entries, request[n].as_str()) {
            None => {
                assert(spec_next == taken);
            },
            Some(j) => {
                let ghost found = first_answering(entries@, normalized_id(request@[n as int]@));
                assert(found == Some(j as int));
                let mut dup = false;
                let mut k: usize = 0;
                while k < targets.len()
                    invariant
                        k <= targets@.len(),
                        j < entries@.len(),
                        found == Some(j as int),
                        targets@ == before,
                        forall|m: int| 0 <= m < targets@.len() ==> targets@[m] < entries@.len(),
                        dup == exists|m: int| 0 <= m < k && entries@[(#[trigger] targets@[m]) as int].summary.id@ == entries@[j as int].summary.id@,
                    decreases targets@.len() - k,
                {
                    if entries[targets[k]].summary.id == entries[j].summary.id {
                        dup = true;
                    }
                    k = k + 1;
                }
                proof {
                    if dup {
                        let m = choose|m: int| 0 <= m < targets@.len() && entries@[(#[trigger] targets@[m]) as int].summary.id@ == entries@[j as int].summary.id@;
                        assert(taken[m] == targets@[m] as int);
                        assert(targets_id(entries@, taken, entries@[j as int].summary.id@));
                    } else {
                        assert forall|m: int| 0 <= m < taken.len() implies entries@[#[trigger] taken[m]].summary.id@ != entries@[j as int].summary.id@ by {
                            assert(taken[m] == targets@[m] as int);
                        }
                    }
                }
                if !dup {
                    targets.push(j);
                    assert(targets@.map_values(|i: usize| i as int) =~= taken.push(j as int));
                    assert(spec_next == taken.push(j as int));
                } else {
                    assert(targets@.map_values(|i: usize| i as int) =~= taken);
                    assert(spec_next == taken);
                }
            },
        }
        n = n + 1;
    }
    assert(ids.take(request@.len() as int) =~= ids);
    targets
}

/// The icons an update publishes: for each served entry in turn whose icon was
/// found, its id and icon, up to 48.
pub open spec fn icon_pairs(entries: Seq<CatalogEntry>, targets: Seq<int>, found: Seq<Option<UiImage>>) -> Seq<(String, UiImage)>
    decreases found.len(),
{
    if found.len() == 0 {
        seq![]
    } else {
        let prev = icon_pairs(entries, targets, found.drop_last());
        if prev.len() >= MAX_ICON_CACHE {
            prev
        } else {
            match found.last() {
                Some(img) => prev.push((entries[targets[found.len() - 1]].summary.id, img)),
                None => prev,
            }
        }
    }
}

/// The update published after serving `targets`, whose icons, in order, were
/// `found` (from the cache or a file): the found icons, up to 48, and no
/// application list; nothing when no icon was found.
pub fn icon_update(entries: &Vec<CatalogEntry>, targets: &Vec<usize>, found: Vec<Option<UiImage>>) -> (r: Option<AppCatalogUpdate>)
    requires
        targets@.len() == found@.len(),
        forall|k: int| 0 <= k < targets@.len() ==> targets@[k] < entries@.len(),
    ensures
        r is Some <==> icon_pairs(entries@, targets@.map_values(|i: usize| i as int), found@).len() > 0,
        r matches Some(u) ==> u.applications is None
            && u.icons@ == icon_pairs(entries@, targets@.map_values(|i: usize| i as int), found@),
{
    let ghost t = targets@.map_values(|i: usize| i as int);
    let ghost f = found@;
    let mut icons: Vec<(String, UiImage)> = Vec::new();
    let mut found = found;
    let mut rest: Vec<Option<UiImage>> = Vec::new();
    // Take the found icons out front to back.
    let n = found.len();
    let mut k: usize = n;
    while k > 0
        invariant
            k <= n,
            n == f.len(),
            found@ == f.take(k as int),
            rest@ == f.skip(k as int).reverse(),
        decreases k,
    {
        let last = found.pop().unwrap();
        proof {
            assert(found@ =~= f.take(k - 1));
        }
        rest.push(last);
        assert(rest@ =~= f.skip(k - 1).reverse());
        k = k - 1;
    }
    let mut i: usize = 0;
    while i < n
        invariant
            i <= n,
            n == f.len(),
            n == targets@.len(),
            t == targets@.map_values(|i: usize| i as int),
            forall|k: int| 0 <= k < targets@.len() ==> targets@[k] < entries@.len(),
            rest@ == f.skip(i as int).reverse(),
            icons@ == icon_pairs(entries@, t, f.take(i as int)),
            icons@.len() <= MAX_ICON_CACHE,
        decreases n - i,
    {
        let ghost before = icons@;
        assert(f.take(i + 1).drop_last() =~= f.take(i as int));
        let next = rest.pop().unwrap();
        proof {
            assert(f.skip(i as int).reverse().last() == f[i as int]);
            assert(rest@ =~= f.skip(i + 1).reverse());
            assert(f.take(i + 1).last() == f[i as int]);
        }
        if icons.len() >= MAX_ICON_CACHE {
            i = i + 1;
            continue;
        }
        match next {
            Some(img) => {
                let id = entries[targets[i]].summary.id.clone();
                icons.push((id, img));
                assert(icons@ =~= before.push((entries@[t[i as int]].summary.id, f[i as int].unwrap())));
            },
            None => {},
        }
        i = i + 1;
    }
    assert(f.take(n as int) =~= f);
    if icons.len() == 0 {
        None
    } else {
        Some(AppCatalogUpdate { applications: None, icons })
    }
}

/// Where each published icon comes from: a served target and the icon found for it.
pub(crate) proof fn lemma_icon_pairs(entries: Seq<CatalogEntry>, targets: Seq<int>, found: Seq<Option<UiImage>>)
    requires
        targets.len() == found.len(),
    ensures
        icon_pairs(entries, targets, found).len() <= MAX_ICON_CACHE,
        icon_pairs(entries, targets, found).len() <= found.len(),
        forall|p: int| 0 <= p < icon_pairs(entries, targets, found).len() ==> exists|k: int| 0 <= k < found.len()
            && (#[trigger] icon_pairs(entries, targets, found)[p]).0 == entries[targets[k]].summary.id
            && found[k] == Some(icon_pairs(entries, targets, found)[p].1),
        (forall|k: int, j: int| 0 <= k < j < targets.len() ==>
            entries[targets[k]].summary.id@ != entries[targets[j]].summary.id@) ==>
        (forall|p: int, q: int| 0 <= p < q < icon_pairs(entries, targets, found).len() ==>
            (#[trigger] icon_pairs(entries, targets, found)[p]).0@ != (#[trigger] icon_pairs(entries, targets, found)[q]).0@),
    decreases found.len(),
{
    if found.len() > 0 {
        let n = found.len() - 1;
        let ft = found.drop_last();
        let tt = targets.drop_last();
        lemma_icon_pairs(entries, tt, ft);
        lemma_icon_pairs_targets(entries, targets, ft);
        let prev = icon_pairs(entries, targets, ft);
        let r = icon_pairs(entries, targets, found);
        assert forall|p: int| 0 <= p < r.len() implies exists|k: int| 0 <= k < found.len()
            && (#[trigger] r[p]).0 == entries[targets[k]].summary.id && found[k] == Some(r[p].1) by {
            if p < prev.len() {
                let k = choose|k: int| 0 <= k < ft.len() && (#[trigger] prev[p]).0 == entries[targets[k]].summary.id && ft[k] == Some(prev[p].1);
                assert(r[p] == prev[p]);
                assert(found[k] == ft[k]);
            } else {
                assert(found[n] == Some(r[p].1));
            }
        }
        if forall|k: int, j: int| 0 <= k < j < targets.len() ==>
            entries[targets[k]].summary.id@ != entries[targets[j]].summary.id@ {
            assert forall|p: int, q: int| 0 <= p < q < r.len() implies (#[trigger] r[p]).0@ != (#[trigger] r[q]).0@ by {
                assert(r[p] == prev[p]);
                if q >= prev.len() {
                    let k = choose|k: int| 0 <= k < ft.len() && (#[trigger] prev[p]).0 == entries[targets[k]].summary.id && ft[k] == Some(prev[p].1);
                    assert(r[q].0 == entries[targets[n]].summary.id);
                } else {
                    assert(r[q] == prev[q]);
                }
            }
        }
    }
}

/// The published icons before the last served target do not depend on it.
proof fn lemma_icon_pairs_targets(entries: Seq<CatalogEntry>, targets: Seq<int>, found: Seq<Option<UiImage>>)
    requires
        found.len() < targets.len(),
    ensures
        icon_pairs(entries, targets, found) == icon_pairs(entries, targets.take(found.len() as int), found),
    decreases found.len(),
{
    if found.len() > 0 {
        lemma_icon_pairs_targets(entries, targets, found.drop_last());
        lemma_icon_pairs_targets(entries, targets.take(found.len() as int), found.drop_last());
        assert(targets.take(found.len() as int).take(found.len() - 1) =~= targets.take(found.len() - 1));
    }
}

/// A copy of an application summary.
fn copy_summary(s: &ApplicationSummary) -> (r: ApplicationSummary)
    ensures
        r.id == s.id,
        r.name == s.name,
        r.generic_name == s.generic_name,
        r.icon == s.icon,
{
    ApplicationSummary {
        id: s.id.clone(),
        name: s.name.clone(),
        generic_name: s.generic_name.clone(),
        keywords: s.keywords.clone(),
        window_app_ids: s.window_app_ids.clone(),
        exec_argv: s.exec_argv.clone(),
        icon: match &s.icon {
            Some(img) => Some(img.clone()),
            None => None,
        },
    }
}

/// The first update a catalog publishes: every scanned application, in
/// order, and no icons.
pub fn catalog_listing(entries: &Vec<CatalogEntry>) -> (r: AppCatalogUpdate)
    ensures
        r.icons@.len() == 0,
        r.applications matches Some(apps) && apps@.len() == entries@.len()
            && forall|i: int| 0 <= i < entries@.len() ==> {
                &&& (#[trigger] apps@[i]).id == entries@[i].summary.id
                &&& apps@[i].name == entries@[i].summary.name
                &&& apps@[i].generic_name == entries@[i].summary.generic_name
                &&& apps@[i].icon == entries@[i].summary.icon
            },
{
    let mut apps: Vec<ApplicationSummary> = Vec::new();
    let mut i: usize = 0;
    while i < entries.len()
        invariant
            i <= entries@.len(),
            apps@.len() == i,
            forall|j: int| 0 <= j < i ==> {
                &&& (#[trigger] apps@[j]).id == entries@[j].summary.id
                &&& apps@[j].name == entries@[j].summary.name
                &&& apps@[j].generic_name == entries@[j].summary.generic_name
                &&& apps@[j].icon == entries@[j].summary.icon
            },
        decreases entries@.len() - i,
    {
        apps.push(copy_summary(&entries[i].summary));
        i = i + 1;
    }
    AppCatalogUpdate { applications: Some(apps), icons: Vec::new() }
}

} // verus!
