//! Properties that hold across several operations of the store and the
//! search, stated over the same spec functions as the operations' contracts.

use vstd::prelude::*;
use crate::order::{is_ranked, Ranked};
use crate::records::{LaunchProfile, RecentEntry, SearchResult, TaggedPath};
use crate::search::best_of;
use crate::store::{
    capped, chosen_color, favorites_added, favorites_removed, has_favorite, has_profile,
    has_tag, is_first_tag, profile_saved, recents_without, tag_matches, tag_set, touched,
    RECENT_CAP,
};
use crate::text::{ascii_lower, same_ignoring_ascii_case};

verus! {

/// Adding a favorite that is already there changes nothing, so adding the
/// same path twice is adding it once; where the path was absent, exactly
/// one favorite is the path afterwards. Removing a path that is not a
/// favorite changes nothing.
pub proof fn lemma_favorites_idempotent(favs: Seq<String>, path: String)
    ensures
        favorites_added(favorites_added(favs, path), path) == favorites_added(favs, path),
        !has_favorite(favs, path@) ==> {
            let after = favorites_added(favorites_added(favs, path), path);
            exists|i: int|
                0 <= i < after.len() && (#[trigger] after[i])@ == path@ && forall|j: int|
                    0 <= j < after.len() && j != i ==> (#[trigger] after[j])@ != path@
        },
        !has_favorite(favs, path@) ==> favorites_removed(favs, path@) == favs,
{
    let once = favorites_added(favs, path);
    if !has_favorite(favs, path@) {
        assert(once[favs.len() as int] == path);
        assert(has_favorite(once, path@));
        assert(once[favs.len() as int]@ == path@);
        assert forall|j: int| 0 <= j < once.len() && j != favs.len() implies (#[trigger] once[j])@ != path@ by {
            assert(once[j] == favs[j]);
        }
        lemma_filter_keeps_all(favs, path@);
    } else {
        assert(has_favorite(once, path@));
    }
}

proof fn lemma_filter_keeps_all(favs: Seq<String>, path: Seq<char>)
    requires
        !has_favorite(favs, path),
    ensures
        favorites_removed(favs, path) == favs,
    decreases favs.len(),
{
    reveal(Seq::filter);
    if favs.len() > 0 {
        let init = favs.drop_last();
        assert forall|i: int| 0 <= i < init.len() implies (#[trigger] init[i])@ != path by {
            assert(favs[i] == init[i]);
        }
        lemma_filter_keeps_all(init, path);
        assert(favs.last() == favs[favs.len() - 1]);
        assert(favs =~= init.push(favs.last()));
    }
}

/// Setting a tag and then setting it again on the same path under a name
/// that differs only in ASCII case keeps a single entry for it: where no
/// entry was the tag on the path before, exactly one entry is afterwards,
/// and it has the second color.
pub proof fn lemma_tag_upsert_ignores_case(
    before: Seq<TaggedPath>,
    mid: Seq<TaggedPath>,
    after: Seq<TaggedPath>,
    path: String,
    first: String,
    second: String,
    color1: Option<String>,
    color2: Option<String>,
)
    requires
        tag_set(before, path, first, color1, mid),
        tag_set(mid, path, second, color2, after),
        same_ignoring_ascii_case(first@, second@),
        !has_tag(before, path@, first@),
    ensures
        after.len() == before.len() + 1,
        tag_matches(after[before.len() as int], path@, second@),
        after[before.len() as int].color@ == chosen_color(color2),
        forall|j: int| 0 <= j < after.len() && j != before.len() ==> !tag_matches(
            #[trigger] after[j],
            path@,
            second@,
        ),
{
    let n = before.len() as int;
    assert forall|k: int| 0 <= k < before.len() implies !tag_matches(#[trigger] before[k], path@, second@) by {
        if tag_matches(before[k], path@, second@) {
            assert forall|c: int| 0 <= c < before[k].tag@.len() implies ascii_lower(
                #[trigger] before[k].tag@[c],
            ) == ascii_lower(first@[c]) by {
                assert(ascii_lower(second@[c]) == ascii_lower(first@[c]));
            }
            assert(tag_matches(before[k], path@, first@));
        }
    }
    assert(mid[n] == mid.last());
    assert forall|c: int| 0 <= c < mid[n].tag@.len() implies ascii_lower(#[trigger] mid[n].tag@[c])
        == ascii_lower(second@[c]) by {
        assert(ascii_lower(first@[c]) == ascii_lower(second@[c]));
    }
    assert(tag_matches(mid[n], path@, second@));
    assert(has_tag(mid, path@, second@));
    assert forall|k: int| 0 <= k < n implies !tag_matches(#[trigger] mid[k], path@, second@) by {
        assert(mid[k] == before[k]);
    }
    let i = choose|i: int| #[trigger] is_first_tag(mid, path@, second@, i) && after == mid.update(i, after[i])
        && after[i].path == mid[i].path && after[i].tag == mid[i].tag && after[i].color@
        == chosen_color(color2);
    assert(i == n);
    assert forall|j: int| 0 <= j < after.len() && j != n implies !tag_matches(
        #[trigger] after[j],
        path@,
        second@,
    ) by {
        assert(after[j] == mid[j]);
        assert(mid[j] == before[j]);
    }
}

/// Saving a profile under an id that a profile already has replaces it in
/// place: the number of profiles stays the same and the saved profile
/// stands where the first with that id stood.
pub proof fn lemma_save_existing_replaces(
    before: Seq<LaunchProfile>,
    after: Seq<LaunchProfile>,
    p: LaunchProfile,
)
    requires
        profile_saved(before, after, p),
        has_profile(before, p.id),
    ensures
        after.len() == before.len(),
        exists|i: int|
            0 <= i < before.len() && before[i].id == p.id && #[trigger] after[i] == p && forall|j: int|
                0 <= j < before.len() && j != i ==> after[j] == before[j],
{
    let i = choose|i: int|
        0 <= i < before.len() && before[i].id == p.id && (forall|j: int|
            0 <= j < i ==> (#[trigger] before[j]).id != p.id) && after == before.update(i, p);
    assert(after[i] == p);
}

/// Touching a path keeps no other entry of that path. While the entries
/// left fit under the cap, the new entry is the one entry of the path, at
/// the end, with the time it was touched at.
pub proof fn lemma_touch_single_entry(
    before: Seq<RecentEntry>,
    path: String,
    now: i64,
    after: Seq<RecentEntry>,
)
    requires
        touched(before, path, now, after),
        recents_without(before, path@).len() < RECENT_CAP,
    ensures
        after.last() == (RecentEntry { path: path, last_opened_utc: now }),
        forall|j: int| 0 <= j < after.len() - 1 ==> (#[trigger] after[j]).path@ != path@,
{
    let kept = recents_without(before, path@);
    let pred = |e: RecentEntry| e.path@ != path@;
    assert(before.filter(pred) == kept);
    assert forall|j: int| 0 <= j < after.len() - 1 implies (#[trigger] after[j]).path@ != path@ by {
        assert(after[j] == kept[j]);
        before.lemma_filter_pred(pred, j);
    }
}

/// Recent entries in listing order go from the most recent to the least:
/// any entry is at least as recent as every entry after it.
pub proof fn lemma_recents_listed_latest_first(s: Seq<RecentEntry>)
    requires
        is_ranked(s),
    ensures
        forall|i: int, j: int|
            0 <= i < j < s.len() ==> (#[trigger] s[i]).last_opened_utc >= (
            #[trigger] s[j]).last_opened_utc,
    decreases s.len(),
{
    if s.len() > 1 {
        let init = s.drop_last();
        assert(is_ranked(init)) by {
            assert forall|i: int| 0 <= i < init.len() - 1 implies (#[trigger] init[i]).ranks_le(
                &init[i + 1],
            ) by {
                assert(s[i].ranks_le(&s[i + 1]));
            }
        }
        lemma_recents_listed_latest_first(init);
        assert forall|i: int, j: int| 0 <= i < j < s.len() implies (#[trigger] s[i]).last_opened_utc
            >= (#[trigger] s[j]).last_opened_utc by {
            if j < s.len() - 1 {
                assert(init[i] == s[i] && init[j] == s[j]);
            } else {
                assert(s[j - 1].ranks_le(&s[j]));
                if i < j - 1 {
                    assert(init[i] == s[i] && init[j - 1] == s[j - 1]);
                }
            }
        }
    }
}

/// When a touch goes over the cap, what stays is `RECENT_CAP` entries, the
/// most recent first, and none of the entries that went is more recent
/// than one that stayed.
pub proof fn lemma_cap_keeps_latest(all: Seq<RecentEntry>, kept: Seq<RecentEntry>)
    requires
        capped(all, kept),
        all.len() > RECENT_CAP,
    ensures
        kept.len() == RECENT_CAP,
        forall|i: int, j: int|
            0 <= i < j < kept.len() ==> (#[trigger] kept[i]).last_opened_utc >= (
            #[trigger] kept[j]).last_opened_utc,
        exists|s: Seq<RecentEntry>|
            #[trigger] s.to_multiset() == all.to_multiset() && kept == s.take(RECENT_CAP as int)
                && forall|i: int, j: int|
                0 <= i < RECENT_CAP <= j < s.len() ==> (#[trigger] s[i]).last_opened_utc >= (
                #[trigger] s[j]).last_opened_utc,
{
    broadcast use vstd::seq_lib::group_to_multiset_ensures;

    let s = choose|s: Seq<RecentEntry>|
        is_ranked(s) && s.to_multiset() == all.to_multiset() && kept == s.take(RECENT_CAP as int);
    assert(s.len() == s.to_multiset().len());
    assert(all.len() == all.to_multiset().len());
    lemma_recents_listed_latest_first(s);
    assert forall|i: int, j: int| 0 <= i < j < kept.len() implies (#[trigger] kept[i]).last_opened_utc
        >= (#[trigger] kept[j]).last_opened_utc by {
        assert(kept[i] == s[i] && kept[j] == s[j]);
    }
}

/// A search that gathered nothing returns nothing.
pub proof fn lemma_no_match_is_empty(n: nat, best: Seq<SearchResult>)
    requires
        best_of(Seq::empty(), n, best),
    ensures
        best.len() == 0,
{
    broadcast use vstd::seq_lib::group_to_multiset_ensures;

    let s = choose|s: Seq<SearchResult>|
        #[trigger] is_ranked(s) && s.to_multiset() == Seq::<SearchResult>::empty().to_multiset()
            && best == if s.len() <= n {
            s
        } else {
            s.take(n as int)
        };
    assert(s.len() == s.to_multiset().len());
    assert(Seq::<SearchResult>::empty().to_multiset().len() == 0);
}

} // verus!
