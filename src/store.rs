//! The state aggregate: favorites, recent directories, tags and launch
//! profiles, with every operation the store offers on it. Saving the
//! aggregate after a change is the caller's part.

use vstd::prelude::*;
use crate::order::{is_ranked, sort_ranked};
use crate::records::{copy_all, Duplicate, LaunchProfile, RecentEntry, TaggedPath};
use crate::text::{
    ascii_lower, eq_ignore_ascii_case, lemma_trimmed_settled, same_ignoring_ascii_case, str_eq,
    trim, trimmed,
};
use crate::unique::{distinct_by, lemma_filter_distinct, lemma_permutation_distinct};

verus! {

/// How many recent entries are kept.
pub const RECENT_CAP: usize = 100;

/// The fewest and the most terminal windows a profile opens.
pub const MIN_WINDOWS: u8 = 1;

pub const MAX_WINDOWS: u8 = 10;

/// Why an operation was refused.
#[derive(Clone, Copy, Debug, PartialEq, Eq, Structural)]
pub enum CoreError {
    /// A path that is empty or all whitespace.
    EmptyPath,
    /// A search query that is empty or all whitespace.
    EmptyQuery,
    /// A profile name that is empty or all whitespace.
    EmptyProfileName,
    /// No profile has the given id.
    ProfileNotFound,
}

impl CoreError {
    /// Whether the input was malformed, as opposed to naming something that
    /// does not exist.
    pub fn is_validation(&self) -> (r: bool)
        ensures
            r == !(*self == CoreError::ProfileNotFound),
    {
        !matches!(self, CoreError::ProfileNotFound)
    }
}

/// The whole state of the store, as it is kept in memory and on disk.
#[derive(Clone, Debug)]
pub struct PersistedState {
    pub favorites: Vec<String>,
    pub recents: Vec<RecentEntry>,
    pub tags: Vec<TaggedPath>,
    pub profiles: Vec<LaunchProfile>,
}

/// Whether some favorite is the path.
pub open spec fn has_favorite(favs: Seq<String>, path: Seq<char>) -> bool {
    exists|i: int| 0 <= i < favs.len() && (#[trigger] favs[i])@ == path
}

/// The favorites after adding a path.
pub open spec fn favorites_added(favs: Seq<String>, path: String) -> Seq<String> {
    if has_favorite(favs, path@) {
        favs
    } else {
        favs.push(path)
    }
}

/// The favorites after removing a path.
pub open spec fn favorites_removed(favs: Seq<String>, path: Seq<char>) -> Seq<String> {
    favs.filter(|f: String| f@ != path)
}

/// The recent entries other than those of a path.
pub open spec fn recents_without(recents: Seq<RecentEntry>, path: Seq<char>) -> Seq<RecentEntry> {
    recents.filter(|e: RecentEntry| e.path@ != path)
}

/// `kept` is what is left of `all` under the cap: all of it when it fits,
/// else the first `RECENT_CAP` of an ordering of it, most recent first.
pub open spec fn capped(all: Seq<RecentEntry>, kept: Seq<RecentEntry>) -> bool {
    if all.len() <= RECENT_CAP {
        kept == all
    } else {
        exists|s: Seq<RecentEntry>|
            is_ranked(s) && s.to_multiset() == all.to_multiset() && kept == s.take(
                RECENT_CAP as int,
            )
    }
}

/// `after` is the recent entries once `path` was opened at `now`.
pub open spec fn touched(before: Seq<RecentEntry>, path: String, now: i64, after: Seq<RecentEntry>) -> bool {
    capped(
        recents_without(before, path@).push(RecentEntry { path: path, last_opened_utc: now }),
        after,
    )
}

/// A tag entry is the tag on the path, without regard to ASCII case.
pub open spec fn tag_matches(e: TaggedPath, path: Seq<char>, tag: Seq<char>) -> bool {
    e.path@ == path && same_ignoring_ascii_case(e.tag@, tag)
}

/// Whether some tag entry is the tag on the path.
pub open spec fn has_tag(tags: Seq<TaggedPath>, path: Seq<char>, tag: Seq<char>) -> bool {
    exists|i: int| 0 <= i < tags.len() && tag_matches(#[trigger] tags[i], path, tag)
}

/// The first tag entry that is the tag on the path.
pub open spec fn is_first_tag(tags: Seq<TaggedPath>, path: Seq<char>, tag: Seq<char>, i: int) -> bool {
    &&& 0 <= i < tags.len()
    &&& tag_matches(tags[i], path, tag)
    &&& forall|j: int| 0 <= j < i ==> !tag_matches(#[trigger] tags[j], path, tag)
}

/// The color a tag gets: the one given, else the default blue.
pub open spec fn chosen_color(color: Option<String>) -> Seq<char> {
    match color {
        Some(c) => c@,
        None => "#0a84ff"@,
    }
}

/// `after` is the tag entries once the tag on the path was set to the color:
/// the first entry that is the tag on the path takes the color, else a new
/// entry is appended.
pub open spec fn tag_set(
    before: Seq<TaggedPath>,
    path: String,
    tag: String,
    color: Option<String>,
    after: Seq<TaggedPath>,
) -> bool {
    if has_tag(before, path@, tag@) {
        exists|i: int|
            #[trigger] is_first_tag(before, path@, tag@, i) && after == before.update(i, after[i])
                && after[i].path == before[i].path && after[i].tag == before[i].tag
                && after[i].color@ == chosen_color(color)
    } else {
        &&& after.len() == before.len() + 1
        &&& after.drop_last() == before
        &&& after.last().path == path
        &&& after.last().tag == tag
        &&& after.last().color@ == chosen_color(color)
    }
}

/// The tag entries on a path, in insertion order.
pub open spec fn tags_on(tags: Seq<TaggedPath>, path: Seq<char>) -> Seq<TaggedPath> {
    tags.filter(|e: TaggedPath| e.path@ == path)
}

/// The tag entries after removing a tag from a path.
pub open spec fn tags_removed(tags: Seq<TaggedPath>, path: Seq<char>, tag: Seq<char>) -> Seq<TaggedPath> {
    tags.filter(|e: TaggedPath| !tag_matches(e, path, tag))
}

/// The window count a profile gets: the one asked for, else one, held
/// within `MIN_WINDOWS..=MAX_WINDOWS`.
pub open spec fn clamped_windows(windows: Option<u8>) -> u8 {
    match windows {
        None => MIN_WINDOWS,
        Some(w) => if w < MIN_WINDOWS {
            MIN_WINDOWS
        } else if w > MAX_WINDOWS {
            MAX_WINDOWS
        } else {
            w
        },
    }
}

/// Whether some profile has the id.
pub open spec fn has_profile(profiles: Seq<LaunchProfile>, id: u128) -> bool {
    exists|i: int| 0 <= i < profiles.len() && (#[trigger] profiles[i]).id == id
}

/// The profiles once `p` is saved: in place of the first with its id, else
/// at the end.
pub open spec fn profile_saved(before: Seq<LaunchProfile>, after: Seq<LaunchProfile>, p: LaunchProfile) -> bool {
    if has_profile(before, p.id) {
        exists|i: int|
            0 <= i < before.len() && before[i].id == p.id && (forall|j: int|
                0 <= j < i ==> (#[trigger] before[j]).id != p.id) && after == before.update(i, p)
    } else {
        after == before.push(p)
    }
}

/// The profiles other than those with the id.
pub open spec fn profiles_without(profiles: Seq<LaunchProfile>, id: u128) -> Seq<LaunchProfile> {
    profiles.filter(|p: LaunchProfile| p.id != id)
}

/// What identifies a tag entry: its path and its name in ASCII lower case.
pub open spec fn tag_key(t: TaggedPath) -> (Seq<char>, Seq<char>) {
    (t.path@, t.tag@.map_values(|c: char| ascii_lower(c)))
}

/// A profile as saving makes it: a trimmed name that is not empty, and a
/// window count within `MIN_WINDOWS..=MAX_WINDOWS`.
pub open spec fn profile_valid(p: LaunchProfile) -> bool {
    &&& p.name@.len() > 0
    &&& trimmed(p.name@) == p.name@
    &&& MIN_WINDOWS <= p.windows <= MAX_WINDOWS
}

impl PersistedState {
    /// The invariant that the operations keep: no favorite twice, at most
    /// one recent entry per path and at most `RECENT_CAP` of them, one entry
    /// per tag on a path without regard to ASCII case, one profile per id,
    /// and every profile valid.
    pub open spec fn wf(&self) -> bool {
        &&& distinct_by(self.favorites@, |f: String| f@)
        &&& distinct_by(self.recents@, |e: RecentEntry| e.path@)
        &&& self.recents@.len() <= RECENT_CAP
        &&& distinct_by(self.tags@, |t: TaggedPath| tag_key(t))
        &&& distinct_by(self.profiles@, |p: LaunchProfile| p.id)
        &&& forall|i: int| 0 <= i < self.profiles@.len() ==> profile_valid(#[trigger] self.profiles@[i])
    }

    /// The empty state.
    pub fn new() -> (r: Self)
        ensures
            r.favorites@.len() == 0,
            r.recents@.len() == 0,
            r.tags@.len() == 0,
            r.profiles@.len() == 0,
            r.wf(),
    {
        PersistedState {
            favorites: Vec::new(),
            recents: Vec::new(),
            tags: Vec::new(),
            profiles: Vec::new(),
        }
    }
}

/// The favorites, in alphabetical order.
pub fn list_favorites(state: &PersistedState) -> (r: Vec<String>)
    ensures
        is_ranked(r@),
        r@.to_multiset() == state.favorites@.to_multiset(),
{
    sort_ranked(copy_all(&state.favorites))
}

/// Adds a path to the favorites unless it is there already.
pub fn add_favorite(state: &mut PersistedState, path: String)
    ensures
        old(state).wf() ==> final(state).wf(),
        final(state).favorites@ == favorites_added(old(state).favorites@, path),
        final(state).recents == old(state).recents,
        final(state).tags == old(state).tags,
        final(state).profiles == old(state).profiles,
{
    let mut i: usize = 0;
    while i < state.favorites.len()
        invariant
            i <= state.favorites@.len(),
            forall|k: int| 0 <= k < i ==> (#[trigger] state.favorites@[k])@ != path@,
        decreases state.favorites@.len() - i,
    {
        if state.favorites[i] == path {
            return;
        }
        i = i + 1;
    }
    let ghost before = state.favorites@;
    state.favorites.push(path);
    assert forall|a: int, b: int| 0 <= a < b < state.favorites@.len() && old(state).wf() implies (
    #[trigger] state.favorites@[a])@ != (#[trigger] state.favorites@[b])@ by {
        if b < before.len() {
            assert(before[a]@ != before[b]@);
        } else {
            assert(before[a]@ != path@);
        }
    }
}

/// Removes a path from the favorites; nothing happens where it is absent.
pub fn remove_favorite(state: &mut PersistedState, path: &str)
    ensures
        old(state).wf() ==> final(state).wf(),
        final(state).favorites@ == favorites_removed(old(state).favorites@, path@),
        final(state).recents == old(state).recents,
        final(state).tags == old(state).tags,
        final(state).profiles == old(state).profiles,
{
    let ghost src = state.favorites@;
    let mut kept: Vec<String> = Vec::new();
    let mut i: usize = 0;
    while i < state.favorites.len()
        invariant
            src == state.favorites@,
            i <= src.len(),
            kept@ == favorites_removed(src.take(i as int), path@),
        decreases src.len() - i,
    {
        proof {
            reveal(Seq::filter);
            assert(src.take(i + 1).drop_last() =~= src.take(i as int));
        }
        if !str_eq(state.favorites[i].as_str(), path) {
            kept.push(state.favorites[i].clone());
        }
        i = i + 1;
    }
    assert(src.take(src.len() as int) =~= src);
    proof {
        if old(state).wf() {
            lemma_filter_distinct(src, |f: String| f@ != path@, |f: String| f@);
        }
    }
    state.favorites = kept;
}

/// Relies on `chrono::Utc::now` and `DateTime::timestamp`: the current time
/// in Unix seconds. Nothing is known of the value.
#[verifier::external_body]
fn now_utc_seconds() -> (r: i64) {
    chrono::Utc::now().timestamp()
}

/// Relies on `uuid::Uuid::new_v4` and `Uuid::as_u128`: a random version 4
/// UUID as its 128-bit value. Nothing is known of the value.
#[verifier::external_body]
fn fresh_profile_id() -> (r: u128) {
    uuid::Uuid::new_v4().as_u128()
}

/// The recent entries, most recent first.
pub fn list_recents(state: &PersistedState) -> (r: Vec<RecentEntry>)
    ensures
        is_ranked(r@),
        r@.to_multiset() == state.recents@.to_multiset(),
{
    sort_ranked(copy_all(&state.recents))
}

/// Records that `path` was opened at `now`: any earlier entry of the path
/// goes, the new one is appended, and where that makes more than
/// `RECENT_CAP` entries only the most recent `RECENT_CAP` stay, most recent
/// first.
pub fn touch_recent_at(state: &mut PersistedState, path: String, now: i64)
    ensures
        old(state).wf() ==> final(state).wf(),
        touched(old(state).recents@, path, now, final(state).recents@),
        final(state).favorites == old(state).favorites,
        final(state).tags == old(state).tags,
        final(state).profiles == old(state).profiles,
{
    let ghost src = state.recents@;
    let mut kept: Vec<RecentEntry> = Vec::new();
    let mut i: usize = 0;
    while i < state.recents.len()
        invariant
            src == state.recents@,
            i <= src.len(),
            kept@ == recents_without(src.take(i as int), path@),
        decreases src.len() - i,
    {
        proof {
            reveal(Seq::filter);
            assert(src.take(i + 1).drop_last() =~= src.take(i as int));
        }
        if !str_eq(state.recents[i].path.as_str(), path.as_str()) {
            kept.push(state.recents[i].duplicate());
        }
        i = i + 1;
    }
    assert(src.take(src.len() as int) =~= src);
    let ghost entry = RecentEntry { path: path, last_opened_utc: now };
    let ghost filtered = kept@;
    kept.push(RecentEntry { path, last_opened_utc: now });
    let ghost key = |e: RecentEntry| e.path@;
    proof {
        if old(state).wf() {
            let pred = |e: RecentEntry| e.path@ != entry.path@;
            lemma_filter_distinct(src, pred, key);
            assert forall|a: int, b: int| 0 <= a < b < kept@.len() implies key(#[trigger] kept@[a])
                != key(#[trigger] kept@[b]) by {
                if b < filtered.len() {
                    assert(kept@[a] == filtered[a] && kept@[b] == filtered[b]);
                } else {
                    src.lemma_filter_pred(pred, a);
                    assert(kept@[a] == filtered[a]);
                }
            }
        }
    }
    if kept.len() > RECENT_CAP {
        let ghost kept_all = kept@;
        let mut sorted = sort_ranked(kept);
        let ghost ordered = sorted@;
        proof {
            broadcast use vstd::seq_lib::group_to_multiset_ensures;

            assert(ordered.len() == ordered.to_multiset().len());
            assert(kept_all.len() == kept_all.to_multiset().len());
        }
        sorted.truncate(RECENT_CAP);
        assert(sorted@ =~= ordered.take(RECENT_CAP as int));
        proof {
            if old(state).wf() {
                lemma_permutation_distinct(kept_all, ordered, key);
                assert forall|a: int, b: int| 0 <= a < b < sorted@.len() implies key(
                    #[trigger] sorted@[a],
                ) != key(#[trigger] sorted@[b]) by {
                    assert(sorted@[a] == ordered[a] && sorted@[b] == ordered[b]);
                }
            }
        }
        state.recents = sorted;
    } else {
        state.recents = kept;
    }
}

/// Records that `path` was opened now, as `touch_recent_at` does with the
/// current time.
pub fn touch_recent(state: &mut PersistedState, path: String)
    ensures
        old(state).wf() ==> final(state).wf(),
        exists|now: i64| #[trigger] touched(old(state).recents@, path, now, final(state).recents@),
        final(state).favorites == old(state).favorites,
        final(state).tags == old(state).tags,
        final(state).profiles == old(state).profiles,
{
    let now = now_utc_seconds();
    touch_recent_at(state, path, now);
}

/// The tag entries, in insertion order.
pub fn list_tags(state: &PersistedState) -> (r: Vec<TaggedPath>)
    ensures
        r@ == state.tags@,
{
    copy_all(&state.tags)
}

/// Sets the color of a tag on a path. The first entry that is the tag on the
/// path, without regard to ASCII case, keeps its name and takes the color;
/// where there is none a new entry is appended. Without a color the default
/// blue `#0a84ff` is used.
pub fn set_tag(state: &mut PersistedState, path: String, tag: String, color: Option<String>)
    ensures
        old(state).wf() ==> final(state).wf(),
        tag_set(old(state).tags@, path, tag, color, final(state).tags@),
        final(state).favorites == old(state).favorites,
        final(state).recents == old(state).recents,
        final(state).profiles == old(state).profiles,
{
    let chosen = match color {
        Some(c) => c,
        None => String::from_str("#0a84ff"),
    };
    assert(chosen@ == chosen_color(color));
    let mut i: usize = 0;
    while i < state.tags.len()
        invariant
            *state == *old(state),
            chosen@ == chosen_color(color),
            i <= state.tags@.len(),
            forall|k: int| 0 <= k < i ==> !tag_matches(#[trigger] state.tags@[k], path@, tag@),
        decreases state.tags@.len() - i,
    {
        if str_eq(state.tags[i].path.as_str(), path.as_str()) && eq_ignore_ascii_case(
            state.tags[i].tag.as_str(),
            tag.as_str(),
        ) {
            let ghost before = state.tags@;
            let old_entry = state.tags.remove(i);
            let entry = TaggedPath { path: old_entry.path, tag: old_entry.tag, color: chosen };
            state.tags.insert(i, entry);
            assert(state.tags@ =~= before.update(i as int, state.tags@[i as int]));
            assert(is_first_tag(before, path@, tag@, i as int));
            assert(tag_matches(before[i as int], path@, tag@));
            assert(state.tags@[i as int].path == before[i as int].path);
            assert(state.tags@[i as int].tag == before[i as int].tag);
            assert(state.tags@[i as int].color@ == chosen_color(color));
            return;
        }
        i = i + 1;
    }
    let ghost before = state.tags@;
    assert(!has_tag(before, path@, tag@));
    let ghost added = TaggedPath { path: path, tag: tag, color: chosen };
    state.tags.push(TaggedPath { path, tag, color: chosen });
    proof {
        if old(state).wf() {
            assert forall|a: int, b: int| 0 <= a < b < state.tags@.len() implies tag_key(
                #[trigger] state.tags@[a],
            ) != tag_key(#[trigger] state.tags@[b]) by {
                if b < before.len() {
                    assert(tag_key(before[a]) != tag_key(before[b]));
                } else {
                    let x = before[a];
                    if tag_key(x) == tag_key(added) {
                        let lx = x.tag@.map_values(|c: char| ascii_lower(c));
                        let ly = added.tag@.map_values(|c: char| ascii_lower(c));
                        assert(lx.len() == x.tag@.len() && ly.len() == added.tag@.len());
                        assert forall|c: int| 0 <= c < x.tag@.len() implies ascii_lower(
                            #[trigger] x.tag@[c],
                        ) == ascii_lower(added.tag@[c]) by {
                            assert(lx[c] == ly[c]);
                        }
                        assert(tag_matches(x, path@, tag@));
                    }
                }
            }
        }
    }
    assert(state.tags@.drop_last() =~= before);
}

/// Removes a tag, without regard to ASCII case, from a path.
pub fn remove_tag(state: &mut PersistedState, path: &str, tag: &str)
    ensures
        old(state).wf() ==> final(state).wf(),
        final(state).tags@ == tags_removed(old(state).tags@, path@, tag@),
        final(state).favorites == old(state).favorites,
        final(state).recents == old(state).recents,
        final(state).profiles == old(state).profiles,
{
    let ghost src = state.tags@;
    let mut kept: Vec<TaggedPath> = Vec::new();
    let mut i: usize = 0;
    while i < state.tags.len()
        invariant
            src == state.tags@,
            i <= src.len(),
            kept@ == tags_removed(src.take(i as int), path@, tag@),
        decreases src.len() - i,
    {
        proof {
            reveal(Seq::filter);
            assert(src.take(i + 1).drop_last() =~= src.take(i as int));
        }
        let hit = str_eq(state.tags[i].path.as_str(), path) && eq_ignore_ascii_case(
            state.tags[i].tag.as_str(),
            tag,
        );
        if !hit {
            kept.push(state.tags[i].duplicate());
        }
        i = i + 1;
    }
    assert(src.take(src.len() as int) =~= src);
    proof {
        if old(state).wf() {
            lemma_filter_distinct(
                src,
                |e: TaggedPath| !tag_matches(e, path@, tag@),
                |t: TaggedPath| tag_key(t),
            );
        }
    }
    state.tags = kept;
}

/// The tag entries on a path, in insertion order.
pub fn tags_for(state: &PersistedState, path: &str) -> (r: Vec<TaggedPath>)
    ensures
        r@ == tags_on(state.tags@, path@),
{
    let ghost src = state.tags@;
    let mut found: Vec<TaggedPath> = Vec::new();
    let mut i: usize = 0;
    while i < state.tags.len()
        invariant
            src == state.tags@,
            i <= src.len(),
            found@ == tags_on(src.take(i as int), path@),
        decreases src.len() - i,
    {
        proof {
            reveal(Seq::filter);
            assert(src.take(i + 1).drop_last() =~= src.take(i as int));
        }
        if str_eq(state.tags[i].path.as_str(), path) {
            found.push(state.tags[i].duplicate());
        }
        i = i + 1;
    }
    assert(src.take(src.len() as int) =~= src);
    found
}

/// The profiles, alphabetically by lower-cased name.
pub fn list_profiles(state: &PersistedState) -> (r: Vec<LaunchProfile>)
    ensures
        is_ranked(r@),
        r@.to_multiset() == state.profiles@.to_multiset(),
{
    sort_ranked(copy_all(&state.profiles))
}

fn clamp_windows(windows: Option<u8>) -> (r: u8)
    ensures
        r == clamped_windows(windows),
{
    match windows {
        None => MIN_WINDOWS,
        Some(w) => if w < MIN_WINDOWS {
            MIN_WINDOWS
        } else if w > MAX_WINDOWS {
            MAX_WINDOWS
        } else {
            w
        },
    }
}

/// Saves a profile under `id`. A name that is blank is refused; otherwise
/// the profile holds the trimmed name, the given fields and the window
/// count clamped into `MIN_WINDOWS..=MAX_WINDOWS` (one where none is given).
/// It takes the place of the first profile with the same id, else it is
/// appended, and it is returned.
pub fn save_profile_with_id(
    state: &mut PersistedState,
    id: u128,
    name: &str,
    command: Option<String>,
    working_dir: Option<String>,
    terminal: Option<String>,
    windows: Option<u8>,
) -> (r: Result<LaunchProfile, CoreError>)
    ensures
        old(state).wf() ==> final(state).wf(),
        r is Err <==> trimmed(name@).len() == 0,
        r is Err ==> r == Err::<LaunchProfile, CoreError>(CoreError::EmptyProfileName) && *final(state) == *old(state),
        r matches Ok(p) ==> {
            &&& p.id == id
            &&& p.name@ == trimmed(name@)
            &&& p.command == command
            &&& p.working_dir == working_dir
            &&& p.terminal == terminal
            &&& p.windows == clamped_windows(windows)
            &&& profile_saved(old(state).profiles@, final(state).profiles@, p)
        },
        final(state).favorites == old(state).favorites,
        final(state).recents == old(state).recents,
        final(state).tags == old(state).tags,
{
    let clean = trim(name);
    if clean.unicode_len() == 0 {
        return Err(CoreError::EmptyProfileName);
    }
    proof {
        lemma_trimmed_settled(name@);
    }
    let profile = LaunchProfile {
        id,
        name: clean,
        command,
        working_dir,
        terminal,
        windows: clamp_windows(windows),
    };
    let mut i: usize = 0;
    while i < state.profiles.len()
        invariant
            *state == *old(state),
            profile.id == id,
            profile.name@ == trimmed(name@),
            trimmed(name@).len() > 0,
            profile.command == command,
            profile.working_dir == working_dir,
            profile.terminal == terminal,
            profile.windows == clamped_windows(windows),
            profile_valid(profile),
            i <= state.profiles@.len(),
            forall|k: int| 0 <= k < i ==> (#[trigger] state.profiles@[k]).id != id,
        decreases state.profiles@.len() - i,
    {
        if state.profiles[i].id == id {
            let ghost before = state.profiles@;
            let _replaced = state.profiles.remove(i);
            state.profiles.insert(i, profile.duplicate());
            assert(state.profiles@ =~= before.update(i as int, profile));
            assert(before[i as int].id == id);
            proof {
                if old(state).wf() {
                    assert forall|a: int, b: int| 0 <= a < b < state.profiles@.len() implies (
                    #[trigger] state.profiles@[a]).id != (#[trigger] state.profiles@[b]).id by {
                        assert(before[a].id != before[b].id);
                    }
                    assert forall|k: int| 0 <= k < state.profiles@.len() implies profile_valid(
                        #[trigger] state.profiles@[k],
                    ) by {
                        if k != i {
                            assert(profile_valid(before[k]));
                        }
                    }
                }
            }
            return Ok(profile);
        }
        i = i + 1;
    }
    let ghost before = state.profiles@;
    assert(!has_profile(before, id));
    state.profiles.push(profile.duplicate());
    proof {
        if old(state).wf() {
            assert forall|a: int, b: int| 0 <= a < b < state.profiles@.len() implies (
            #[trigger] state.profiles@[a]).id != (#[trigger] state.profiles@[b]).id by {
                if b < before.len() {
                    assert(before[a].id != before[b].id);
                } else {
                    assert(before[a].id != id);
                }
            }
            assert forall|k: int| 0 <= k < state.profiles@.len() implies profile_valid(
                #[trigger] state.profiles@[k],
            ) by {
                if k < before.len() {
                    assert(profile_valid(before[k]));
                }
            }
        }
    }
    Ok(profile)
}

/// Saves a profile as `save_profile_with_id` does, under `id` where one is
/// given and under a fresh random id otherwise.
pub fn save_profile(
    state: &mut PersistedState,
    id: Option<u128>,
    name: &str,
    command: Option<String>,
    working_dir: Option<String>,
    terminal: Option<String>,
    windows: Option<u8>,
) -> (r: Result<LaunchProfile, CoreError>)
    ensures
        old(state).wf() ==> final(state).wf(),
        r is Err <==> trimmed(name@).len() == 0,
        r is Err ==> r == Err::<LaunchProfile, CoreError>(CoreError::EmptyProfileName) && *final(state) == *old(state),
        r matches Ok(p) ==> {
            &&& (id matches Some(given) ==> p.id == given)
            &&& p.name@ == trimmed(name@)
            &&& p.command == command
            &&& p.working_dir == working_dir
            &&& p.terminal == terminal
            &&& p.windows == clamped_windows(windows)
            &&& profile_saved(old(state).profiles@, final(state).profiles@, p)
        },
        final(state).favorites == old(state).favorites,
        final(state).recents == old(state).recents,
        final(state).tags == old(state).tags,
{
    let chosen = match id {
        Some(given) => given,
        None => fresh_profile_id(),
    };
    save_profile_with_id(state, chosen, name, command, working_dir, terminal, windows)
}

/// Deletes the profiles with the id; refused where there is none.
pub fn delete_profile(state: &mut PersistedState, id: u128) -> (r: Result<(), CoreError>)
    ensures
        old(state).wf() ==> final(state).wf(),
        r is Err <==> !has_profile(old(state).profiles@, id),
        r is Err ==> r == Err::<(), CoreError>(CoreError::ProfileNotFound),
        final(state).profiles@ == profiles_without(old(state).profiles@, id),
        final(state).favorites == old(state).favorites,
        final(state).recents == old(state).recents,
        final(state).tags == old(state).tags,
{
    let ghost src = state.profiles@;
    let mut kept: Vec<LaunchProfile> = Vec::new();
    let mut found = false;
    let mut i: usize = 0;
    while i < state.profiles.len()
        invariant
            src == state.profiles@,
            i <= src.len(),
            kept@ == profiles_without(src.take(i as int), id),
            found <==> exists|k: int| 0 <= k < i && (#[trigger] src[k]).id == id,
        decreases src.len() - i,
    {
        proof {
            reveal(Seq::filter);
            assert(src.take(i + 1).drop_last() =~= src.take(i as int));
        }
        if state.profiles[i].id != id {
            kept.push(state.profiles[i].duplicate());
        } else {
            found = true;
        }
        i = i + 1;
    }
    assert(src.take(src.len() as int) =~= src);
    proof {
        if old(state).wf() {
            let pred = |p: LaunchProfile| p.id != id;
            lemma_filter_distinct(src, pred, |p: LaunchProfile| p.id);
            assert forall|k: int| 0 <= k < kept@.len() implies profile_valid(#[trigger] kept@[k]) by {
                assert(src.filter(pred).contains(kept@[k]));
                src.lemma_filter_contains_rev(pred, kept@[k]);
                let m = choose|m: int| 0 <= m < src.len() && src[m] == kept@[k];
                assert(profile_valid(src[m]));
            }
        }
    }
    state.profiles = kept;
    if found {
        Ok(())
    } else {
        Err(CoreError::ProfileNotFound)
    }
}

} // verus!
