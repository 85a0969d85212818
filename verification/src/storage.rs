//! The flat storage directory holding archives (`<stem>.tar.gz`) next to
//! their snar listings (`<stem>.snar`). A stem is either a bare timestamp
//! (full snapshot) or `<timestamp>.based-on-<base-timestamp>`
//! (incremental). Listing the directory is left to the caller, which hands
//! the names of its regular files to the lookups here.

use vstd::prelude::*;

use crate::text::{
    concat, ends_with, has_prefix, has_suffix, join, join_path, lemma_str_lt_asymmetric,
    lemma_str_lt_irreflexive, lemma_str_lt_split, lemma_str_lt_total, lemma_str_lt_transitive,
    starts_with, str_less, str_lt,
};
use crate::timestamp::{
    is_earlier, is_timestamp, is_valid, leading, leading_timestamp, lemma_text_order_is_chronological,
    TIMESTAMP_LEN,
};

verus! {

/// Extension of tar's `--listed-incremental` metadata files.
pub const SNAR_EXT: &'static str = ".snar";

/// Extension of the archives themselves.
pub const ARCHIVE_EXT: &'static str = ".tar.gz";

/// Infix separating an incremental snapshot's own timestamp from the
/// timestamp of the snapshot it is based on.
pub const BASED_ON_INFIX: &'static str = ".based-on-";

/// The views of a list of file names.
pub open spec fn name_views(names: Seq<String>) -> Seq<Seq<char>> {
    names.map_values(|n: String| n@)
}

/// The view of an optional borrowed string.
pub open spec fn opt_view(o: Option<&str>) -> Option<Seq<char>> {
    match o {
        Some(s) => Some(s@),
        None => None,
    }
}

/// `best` is the greatest value (in `str` order) that `pick` gives to one
/// of `names`, or `None` when `pick` gives none of them a value.
pub open spec fn is_greatest_pick(
    names: Seq<Seq<char>>,
    pick: spec_fn(Seq<char>) -> Option<Seq<char>>,
    best: Option<Seq<char>>,
) -> bool {
    match best {
        None => forall|i: int| 0 <= i < names.len() ==> #[trigger] pick(names[i]) is None,
        Some(t) => {
            &&& exists|i: int| 0 <= i < names.len() && #[trigger] pick(names[i]) == Some(t)
            &&& forall|i: int|
                0 <= i < names.len() ==> match #[trigger] pick(names[i]) {
                    Some(u) => !str_lt(t, u),
                    None => true,
                }
        },
    }
}

/// The timestamp of a snar file name: `<timestamp>...snar`.
pub open spec fn snar_timestamp(name: Seq<char>) -> Option<Seq<char>> {
    if has_suffix(name, SNAR_EXT@) {
        leading_timestamp(name)
    } else {
        None
    }
}

/// The stem of a full archive name: `<timestamp>.tar.gz`.
pub open spec fn full_archive_stem(name: Seq<char>) -> Option<Seq<char>> {
    if has_suffix(name, ARCHIVE_EXT@) && is_timestamp(
        name.take(name.len() - ARCHIVE_EXT@.len()),
    ) {
        Some(name.take(name.len() - ARCHIVE_EXT@.len()))
    } else {
        None
    }
}

/// A snar file name starting with `base`, picked as itself.
pub open spec fn snar_starting_with(base: Seq<char>, name: Seq<char>) -> Option<Seq<char>> {
    if has_prefix(name, base) && has_suffix(name, SNAR_EXT@) {
        Some(name)
    } else {
        None
    }
}

/// The names determine their greatest pick: the lookups' results are
/// unique.
pub proof fn lemma_greatest_pick_is_unique(
    names: Seq<Seq<char>>,
    pick: spec_fn(Seq<char>) -> Option<Seq<char>>,
    a: Option<Seq<char>>,
    b: Option<Seq<char>>,
)
    requires
        is_greatest_pick(names, pick, a),
        is_greatest_pick(names, pick, b),
    ensures
        a == b,
{
    match (a, b) {
        (Some(x), Some(y)) => {
            let i = choose|i: int| 0 <= i < names.len() && #[trigger] pick(names[i]) == Some(x);
            let j = choose|j: int| 0 <= j < names.len() && #[trigger] pick(names[j]) == Some(y);
            assert(!str_lt(x, y));
            assert(!str_lt(y, x));
            lemma_str_lt_total(x, y);
        },
        (Some(x), None) => {
            let i = choose|i: int| 0 <= i < names.len() && #[trigger] pick(names[i]) == Some(x);
        },
        (None, Some(y)) => {
            let j = choose|j: int| 0 <= j < names.len() && #[trigger] pick(names[j]) == Some(y);
        },
        (None, None) => {},
    }
}

/// Taking one more name into a running maximum keeps it the maximum.
proof fn lemma_greatest_pick_step(
    names: Seq<Seq<char>>,
    pick: spec_fn(Seq<char>) -> Option<Seq<char>>,
    best: Option<Seq<char>>,
    next: Option<Seq<char>>,
    i: int,
)
    requires
        0 <= i < names.len(),
        is_greatest_pick(names.take(i), pick, best),
        pick(names[i]) is None ==> next == best,
        pick(names[i]) matches Some(u) ==> match best {
            None => next == Some(u),
            Some(t) => if str_lt(t, u) { next == Some(u) } else { next == best },
        },
    ensures
        is_greatest_pick(names.take(i + 1), pick, next),
{
    let prev = names.take(i);
    let cur = names.take(i + 1);
    assert forall|j: int| 0 <= j < i implies cur[j] == prev[j] by {}
    assert(cur[i] == names[i]);
    match pick(names[i]) {
        None => {
            match best {
                None => {
                    assert forall|j: int| 0 <= j < cur.len() implies #[trigger] pick(cur[j]) is None by {
                        if j < i {
                            assert(pick(prev[j]) is None);
                        }
                    }
                },
                Some(t) => {
                    let w = choose|w: int| 0 <= w < prev.len() && #[trigger] pick(prev[w]) == Some(t);
                    assert(pick(cur[w]) == Some(t));
                    assert forall|j: int| 0 <= j < cur.len() implies match #[trigger] pick(cur[j]) {
                        Some(u) => !str_lt(t, u),
                        None => true,
                    } by {
                        if j < i {
                            assert(pick(prev[j]) == pick(cur[j]));
                        }
                    }
                },
            }
        },
        Some(u) => {
            match best {
                None => {
                    assert(pick(cur[i]) == Some(u));
                    assert forall|j: int| 0 <= j < cur.len() implies match #[trigger] pick(cur[j]) {
                        Some(v) => !str_lt(u, v),
                        None => true,
                    } by {
                        if j < i {
                            assert(pick(prev[j]) is None);
                        } else {
                            lemma_str_lt_irreflexive(u);
                        }
                    }
                },
                Some(t) => {
                    if str_lt(t, u) {
                        assert(pick(cur[i]) == Some(u));
                        assert forall|j: int| 0 <= j < cur.len() implies match #[trigger] pick(cur[j]) {
                            Some(v) => !str_lt(u, v),
                            None => true,
                        } by {
                            if j < i {
                                assert(pick(prev[j]) == pick(cur[j]));
                                if let Some(v) = pick(prev[j]) {
                                    if str_lt(u, v) {
                                        lemma_str_lt_transitive(t, u, v);
                                    }
                                }
                            } else {
                                lemma_str_lt_irreflexive(u);
                            }
                        }
                    } else {
                        let w = choose|w: int| 0 <= w < prev.len() && #[trigger] pick(prev[w]) == Some(t);
                        assert(pick(cur[w]) == Some(t));
                        assert forall|j: int| 0 <= j < cur.len() implies match #[trigger] pick(cur[j]) {
                            Some(v) => !str_lt(t, v),
                            None => true,
                        } by {
                            if j < i {
                                assert(pick(prev[j]) == pick(cur[j]));
                            }
                        }
                    }
                },
            }
        },
    }
}

/// A name whose pick is greater than every other name's pick is the
/// greatest pick of the names it joins.
proof fn lemma_greatest_pick_of_newest(
    names: Seq<Seq<char>>,
    pick: spec_fn(Seq<char>) -> Option<Seq<char>>,
    newest: Seq<char>,
    t: Seq<char>,
)
    requires
        pick(newest) == Some(t),
        forall|i: int|
            0 <= i < names.len() ==> match #[trigger] pick(names[i]) {
                Some(u) => str_lt(u, t),
                None => true,
            },
    ensures
        is_greatest_pick(names.push(newest), pick, Some(t)),
{
    let all = names.push(newest);
    assert(all[names.len() as int] == newest);
    assert forall|i: int| 0 <= i < all.len() implies match #[trigger] pick(all[i]) {
        Some(u) => !str_lt(t, u),
        None => true,
    } by {
        if i < names.len() {
            assert(all[i] == names[i]);
            if let Some(u) = pick(names[i]) {
                lemma_str_lt_asymmetric(u, t);
            }
        } else {
            lemma_str_lt_irreflexive(t);
        }
    }
}

/// A snapshot newer than every snapshot of the storage is the last base
/// as soon as its listing is there: a full snapshot's stem is its
/// timestamp, an incremental one's starts with it, and the greatest name
/// is the newest snapshot.
pub proof fn lemma_newest_snapshot_is_last_base(names: Seq<Seq<char>>, t: Seq<char>, stem: Seq<char>)
    requires
        is_timestamp(t),
        has_prefix(stem, t),
        forall|i: int|
            0 <= i < names.len() ==> match #[trigger] snar_timestamp(names[i]) {
                Some(u) => str_lt(u, t),
                None => true,
            },
    ensures
        is_greatest_pick(
            names.push(stem + SNAR_EXT@),
            |n: Seq<char>| snar_timestamp(n),
            Some(t),
        ),
{
    let name = stem + SNAR_EXT@;
    assert(has_suffix(name, SNAR_EXT@)) by {
        assert(name.skip(name.len() - SNAR_EXT@.len()) =~= SNAR_EXT@);
    }
    assert(name.take(TIMESTAMP_LEN as int) =~= t) by {
        assert forall|i: int| 0 <= i < TIMESTAMP_LEN implies name[i] == t[i] by {
            assert(stem.take(t.len() as int)[i] == t[i]);
        }
    }
    assert(snar_timestamp(name) == Some(t));
    lemma_greatest_pick_of_newest(names, |n: Seq<char>| snar_timestamp(n), name, t);
}

/// The listing of a new snapshot taken at `t` is what the lookup of the
/// snar starting with `t` finds, when no other snar name starts with `t`:
/// the next incremental run on "last" copies exactly it.
pub proof fn lemma_new_listing_is_found(names: Seq<Seq<char>>, t: Seq<char>, stem: Seq<char>)
    requires
        has_prefix(stem, t),
        forall|i: int| 0 <= i < names.len() ==> #[trigger] snar_starting_with(t, names[i]) is None,
    ensures
        is_greatest_pick(
            names.push(stem + SNAR_EXT@),
            |n: Seq<char>| snar_starting_with(t, n),
            Some(stem + SNAR_EXT@),
        ),
{
    let name = stem + SNAR_EXT@;
    assert(has_suffix(name, SNAR_EXT@)) by {
        assert(name.skip(name.len() - SNAR_EXT@.len()) =~= SNAR_EXT@);
    }
    assert(has_prefix(name, t)) by {
        assert forall|i: int| 0 <= i < t.len() implies name.take(t.len() as int)[i] == t[i] by {
            assert(stem.take(t.len() as int)[i] == t[i]);
        }
        assert(name.take(t.len() as int) =~= t);
    }
    lemma_greatest_pick_of_newest(names, |n: Seq<char>| snar_starting_with(t, n), name, name);
}

/// A bare `<timestamp>.snar` sorts after every
/// `<timestamp>.based-on-<base>.snar` copy.
pub proof fn lemma_bare_snar_sorts_after_copies(t: Seq<char>, base: Seq<char>)
    ensures
        str_lt(incremental_stem_of(t, base) + SNAR_EXT@, t + SNAR_EXT@),
{
    reveal_strlit(".snar");
    reveal_strlit(".based-on-");
    let copy = incremental_stem_of(t, base) + SNAR_EXT@;
    let rest = BASED_ON_INFIX@.drop_first() + base + SNAR_EXT@;
    assert(copy =~= t + (seq!['.'] + rest));
    assert(t + SNAR_EXT@ =~= t + (seq!['.'] + SNAR_EXT@.drop_first()));
    lemma_str_lt_split(t, seq!['.'] + rest, t, seq!['.'] + SNAR_EXT@.drop_first());
    lemma_str_lt_split(seq!['.'], rest, seq!['.'], SNAR_EXT@.drop_first());
    assert(rest[0] == 'b');
    assert(SNAR_EXT@.drop_first()[0] == 's');
}

/// Among a timestamp's bare snar and its `.based-on-` copies, the lookup
/// of the snar starting with the timestamp finds the bare one.
pub proof fn lemma_lookup_prefers_bare_snar(names: Seq<Seq<char>>, t: Seq<char>)
    requires
        names.contains(t + SNAR_EXT@),
        forall|i: int|
            0 <= i < names.len() && #[trigger] snar_starting_with(t, names[i]) is Some ==> names[i]
                == t + SNAR_EXT@ || exists|base: Seq<char>|
                names[i] == incremental_stem_of(t, base) + SNAR_EXT@,
    ensures
        is_greatest_pick(names, |n: Seq<char>| snar_starting_with(t, n), Some(t + SNAR_EXT@)),
{
    let bare = t + SNAR_EXT@;
    let pick = |n: Seq<char>| snar_starting_with(t, n);
    let w = choose|w: int| 0 <= w < names.len() && names[w] == bare;
    assert(has_prefix(bare, t)) by {
        assert(bare.take(t.len() as int) =~= t);
    }
    assert(has_suffix(bare, SNAR_EXT@)) by {
        assert(bare.skip(bare.len() - SNAR_EXT@.len()) =~= SNAR_EXT@);
    }
    assert(pick(names[w]) == Some(bare));
    assert forall|i: int| 0 <= i < names.len() implies match #[trigger] pick(names[i]) {
        Some(u) => !str_lt(bare, u),
        None => true,
    } by {
        if let Some(u) = pick(names[i]) {
            assert(u == names[i]);
            if u == bare {
                lemma_str_lt_irreflexive(bare);
            } else {
                let base = choose|base: Seq<char>| names[i] == incremental_stem_of(t, base) + SNAR_EXT@;
                lemma_bare_snar_sorts_after_copies(t, base);
                lemma_str_lt_asymmetric(u, bare);
            }
        }
    }
}

/// The last base is the newest snapshot in time: no snar file of the
/// storage carries a later timestamp than the one `find_last_base` gives.
pub proof fn lemma_last_base_is_newest_in_time(names: Seq<Seq<char>>, t: Seq<char>)
    requires
        is_greatest_pick(names, |n: Seq<char>| snar_timestamp(n), Some(t)),
    ensures
        forall|i: int|
            0 <= i < names.len() ==> match #[trigger] snar_timestamp(names[i]) {
                Some(u) => !is_earlier(t, u),
                None => true,
            },
{
    let pick = |n: Seq<char>| snar_timestamp(n);
    let w = choose|w: int| 0 <= w < names.len() && #[trigger] pick(names[w]) == Some(t);
    assert(is_timestamp(t));
    assert forall|i: int| 0 <= i < names.len() implies match #[trigger] snar_timestamp(names[i]) {
        Some(u) => !is_earlier(t, u),
        None => true,
    } by {
        let pick = |n: Seq<char>| snar_timestamp(n);
        if let Some(u) = pick(names[i]) {
            assert(!str_lt(t, u));
            assert(is_timestamp(u));
            lemma_text_order_is_chronological(t, u);
        }
    }
}

/// The last full base is the newest full snapshot in time.
pub proof fn lemma_last_full_base_is_newest_in_time(names: Seq<Seq<char>>, t: Seq<char>)
    requires
        is_greatest_pick(names, |n: Seq<char>| full_archive_stem(n), Some(t)),
    ensures
        forall|i: int|
            0 <= i < names.len() ==> match #[trigger] full_archive_stem(names[i]) {
                Some(u) => !is_earlier(t, u),
                None => true,
            },
{
    let pick = |n: Seq<char>| full_archive_stem(n);
    let w = choose|w: int| 0 <= w < names.len() && #[trigger] pick(names[w]) == Some(t);
    assert(is_timestamp(t));
    assert forall|i: int| 0 <= i < names.len() implies match #[trigger] full_archive_stem(names[i]) {
        Some(u) => !is_earlier(t, u),
        None => true,
    } by {
        let pick = |n: Seq<char>| full_archive_stem(n);
        if let Some(u) = pick(names[i]) {
            assert(!str_lt(t, u));
            assert(is_timestamp(u));
            lemma_text_order_is_chronological(t, u);
        }
    }
}

/// Incremental archives never count as full ones: the stem before
/// `.tar.gz` is longer than a timestamp.
pub proof fn lemma_incremental_archive_is_not_full(t: Seq<char>, base: Seq<char>)
    requires
        is_timestamp(t),
    ensures
        full_archive_stem(incremental_stem_of(t, base) + ARCHIVE_EXT@) is None,
{
    reveal_strlit(".tar.gz");
    reveal_strlit(".based-on-");
    let name = incremental_stem_of(t, base) + ARCHIVE_EXT@;
    assert(name.take(name.len() - ARCHIVE_EXT@.len()).len() >= 25);
}

/// The newest timestamp among snar file names, full or incremental.
pub fn last_snar_timestamp(names: &[String]) -> (last: Option<&str>)
    ensures
        is_greatest_pick(name_views(names@), |n: Seq<char>| snar_timestamp(n), opt_view(last)),
{
    let ghost views = name_views(names@);
    let ghost pick = |n: Seq<char>| snar_timestamp(n);
    let mut best: Option<&str> = None;
    let mut i: usize = 0;
    while i < names.len()
        invariant
            i <= names@.len(),
            views == name_views(names@),
            pick == (|n: Seq<char>| snar_timestamp(n)),
            is_greatest_pick(views.take(i as int), pick, opt_view(best)),
        decreases names@.len() - i,
    {
        let name = names[i].as_str();
        assert(views[i as int] == name@);
        let mut next = best;
        if ends_with(name, SNAR_EXT) {
            if let Some(t) = leading(name) {
                match best {
                    None => next = Some(t),
                    Some(b) => if str_less(b, t) {
                        next = Some(t);
                    },
                }
            }
        }
        proof {
            lemma_greatest_pick_step(views, pick, opt_view(best), opt_view(next), i as int);
        }
        best = next;
        i += 1;
    }
    assert(views.take(names@.len() as int) =~= views);
    best
}

/// The newest full archive's stem: the greatest `<timestamp>` among names
/// `<timestamp>.tar.gz`; incremental archives and other names are ignored.
pub fn last_full_archive_stem(names: &[String]) -> (last: Option<&str>)
    ensures
        is_greatest_pick(name_views(names@), |n: Seq<char>| full_archive_stem(n), opt_view(last)),
{
    let ghost views = name_views(names@);
    let ghost pick = |n: Seq<char>| full_archive_stem(n);
    let mut best: Option<&str> = None;
    let mut i: usize = 0;
    while i < names.len()
        invariant
            i <= names@.len(),
            views == name_views(names@),
            pick == (|n: Seq<char>| full_archive_stem(n)),
            is_greatest_pick(views.take(i as int), pick, opt_view(best)),
        decreases names@.len() - i,
    {
        let name = names[i].as_str();
        assert(views[i as int] == name@);
        let mut next = best;
        if ends_with(name, ARCHIVE_EXT) {
            let stem = name.substring_char(0, name.unicode_len() - ARCHIVE_EXT.unicode_len());
            if is_valid(stem) {
                match best {
                    None => next = Some(stem),
                    Some(b) => if str_less(b, stem) {
                        next = Some(stem);
                    },
                }
            }
        }
        proof {
            lemma_greatest_pick_step(views, pick, opt_view(best), opt_view(next), i as int);
        }
        best = next;
        i += 1;
    }
    assert(views.take(names@.len() as int) =~= views);
    best
}

/// The greatest snar file name that starts with `base`.
pub fn last_snar_starting_with<'a>(names: &'a [String], base: &str) -> (last: Option<&'a str>)
    ensures
        is_greatest_pick(
            name_views(names@),
            |n: Seq<char>| snar_starting_with(base@, n),
            opt_view(last),
        ),
{
    let ghost views = name_views(names@);
    let ghost pick = |n: Seq<char>| snar_starting_with(base@, n);
    let mut best: Option<&str> = None;
    let mut i: usize = 0;
    while i < names.len()
        invariant
            i <= names@.len(),
            views == name_views(names@),
            pick == (|n: Seq<char>| snar_starting_with(base@, n)),
            is_greatest_pick(views.take(i as int), pick, opt_view(best)),
        decreases names@.len() - i,
    {
        let name = names[i].as_str();
        assert(views[i as int] == name@);
        let mut next = best;
        if starts_with(name, base) && ends_with(name, SNAR_EXT) {
            match best {
                None => next = Some(name),
                Some(b) => if str_less(b, name) {
                    next = Some(name);
                },
            }
        }
        proof {
            lemma_greatest_pick_step(views, pick, opt_view(best), opt_view(next), i as int);
        }
        best = next;
        i += 1;
    }
    assert(views.take(names@.len() as int) =~= views);
    best
}

/// Why a lookup in the storage directory found nothing suitable.
pub enum StorageError {
    /// No snar file name starts with a timestamp.
    NoSnarFiles,
    /// No archive is named `<timestamp>.tar.gz`.
    NoFullArchives,
    /// The newest full archive has no snar file next to it.
    MissingFullSnar { archive: String, snar: String },
    /// No snar file name starts with the requested timestamp.
    SnarNotFound { timestamp: String },
}

/// What `format!("{:?}", s)` writes of a string: `s` quoted, with the
/// escapes of Rust's `Debug` for `str`.
pub uninterp spec fn str_debug(s: Seq<char>) -> Seq<char>;

/// `format!("{s:?}")`, Rust's `Debug` rendering of a string; its result is
/// named `str_debug`.
#[verifier::external_body]
fn debug_text(s: &str) -> (text: String)
    ensures
        text@ == str_debug(s@),
{
    format!("{s:?}")
}

/// The message reporting a lookup error of the storage directory `dir`.
pub open spec fn error_message(error: StorageError, dir: Seq<char>) -> Seq<char> {
    match error {
        StorageError::NoSnarFiles => "no snar files found in "@ + dir
            + " \u{2014} create a full archive first"@,
        StorageError::NoFullArchives => "no full archives found in "@ + dir,
        StorageError::MissingFullSnar { archive, snar } => "full archive "@ + archive@
            + " doesn't have the appropriate snar file "@ + snar@,
        StorageError::SnarNotFound { timestamp } => "snar file has not been found in "@ + dir
            + ": timestamp="@ + str_debug(timestamp@),
    }
}

impl StorageError {
    /// The message reporting this error of the storage directory `dir`.
    pub fn message(&self, dir: &str) -> (text: String)
        ensures
            text@ == error_message(*self, dir@),
    {
        match self {
            StorageError::NoSnarFiles => {
                let mut text = concat("no snar files found in ", dir);
                text.append(" \u{2014} create a full archive first");
                text
            },
            StorageError::NoFullArchives => concat("no full archives found in ", dir),
            StorageError::MissingFullSnar { archive, snar } => {
                let mut text = concat("full archive ", archive.as_str());
                text.append(" doesn't have the appropriate snar file ");
                text.append(snar.as_str());
                text
            },
            StorageError::SnarNotFound { timestamp } => {
                let mut text = concat("snar file has not been found in ", dir);
                text.append(": timestamp=");
                text.append(debug_text(timestamp.as_str()).as_str());
                text
            },
        }
    }
}

/// Path of a snapshot's snar listing in the storage directory `dir`.
pub open spec fn snar_path_of(dir: Seq<char>, stem: Seq<char>) -> Seq<char> {
    join_path(dir, stem + SNAR_EXT@)
}

/// Path of a snapshot's archive in the storage directory `dir`.
pub open spec fn archive_path_of(dir: Seq<char>, stem: Seq<char>) -> Seq<char> {
    join_path(dir, stem + ARCHIVE_EXT@)
}

/// Stem of an incremental snapshot taken at `timestamp` on top of `base`.
pub open spec fn incremental_stem_of(timestamp: Seq<char>, base: Seq<char>) -> Seq<char> {
    timestamp + BASED_ON_INFIX@ + base
}

/// `found` is what looking up the newest snar file starting with `base`
/// among `names` in the storage directory `dir` gives: the path of the
/// greatest such name, or an error naming `base` when there is none.
pub open spec fn is_snar_lookup(
    dir: Seq<char>,
    names: Seq<Seq<char>>,
    base: Seq<char>,
    found: Result<String, StorageError>,
) -> bool {
    match found {
        Ok(path) => exists|name: Seq<char>|
            {
                &&& is_greatest_pick(names, |n: Seq<char>| snar_starting_with(base, n), Some(name))
                &&& path@ == join_path(dir, name)
            },
        Err(e) => {
            &&& e matches StorageError::SnarNotFound { timestamp }
            &&& timestamp@ == base
            &&& is_greatest_pick(names, |n: Seq<char>| snar_starting_with(base, n), None)
        },
    }
}

/// The newest full archive of the storage, before its snar listing has
/// been checked on disk.
pub struct FullArchive {
    pub stem: String,
    pub archive: String,
    pub snar: String,
}

impl FullArchive {
    /// Accepts the archive as a base once the caller has checked whether
    /// its snar listing is a regular file.
    pub fn confirm(self, snar_is_file: bool) -> (base: Result<String, StorageError>)
        ensures
            snar_is_file ==> base == Ok::<String, StorageError>(self.stem),
            !snar_is_file ==> base == Err::<String, StorageError>(
                StorageError::MissingFullSnar { archive: self.archive, snar: self.snar },
            ),
    {
        if snar_is_file {
            Ok(self.stem)
        } else {
            Err(StorageError::MissingFullSnar { archive: self.archive, snar: self.snar })
        }
    }
}

/// The directory holding the archives next to their snar listings.
pub struct Storage {
    dir: String,
}

impl View for Storage {
    type V = Seq<char>;

    /// The storage directory's path.
    closed spec fn view(&self) -> Seq<char> {
        self.dir@
    }
}

impl Storage {
    pub fn new(dir: String) -> (storage: Self)
        ensures
            storage@ == dir@,
    {
        Storage { dir }
    }

    /// The storage directory's path.
    pub fn dir(&self) -> (dir: &str)
        ensures
            dir@ == self@,
    {
        self.dir.as_str()
    }

    pub fn snar_path(&self, stem: &str) -> (path: String)
        ensures
            path@ == snar_path_of(self@, stem@),
    {
        join(self.dir.as_str(), concat(stem, SNAR_EXT).as_str())
    }

    pub fn archive_path(&self, stem: &str) -> (path: String)
        ensures
            path@ == archive_path_of(self@, stem@),
    {
        join(self.dir.as_str(), concat(stem, ARCHIVE_EXT).as_str())
    }

    pub fn incremental_stem(timestamp: &str, base: &str) -> (stem: String)
        ensures
            stem@ == incremental_stem_of(timestamp@, base@),
    {
        let mut stem = concat(timestamp, BASED_ON_INFIX);
        stem.append(base);
        stem
    }

    /// Timestamp of the most recent snapshot of any kind, full or
    /// incremental, among the names of the storage directory's files.
    pub fn find_last_base(&self, names: &[String]) -> (base: Result<String, StorageError>)
        ensures
            match base {
                Ok(t) => is_greatest_pick(
                    name_views(names@),
                    |n: Seq<char>| snar_timestamp(n),
                    Some(t@),
                ),
                Err(e) => e is NoSnarFiles && is_greatest_pick(
                    name_views(names@),
                    |n: Seq<char>| snar_timestamp(n),
                    None,
                ),
            },
    {
        match last_snar_timestamp(names) {
            Some(t) => Ok(String::from_str(t)),
            None => Err(StorageError::NoSnarFiles),
        }
    }

    /// The most recent full archive among the names of the storage
    /// directory's files, with the paths of its archive and snar listing.
    pub fn find_last_full_base(&self, names: &[String]) -> (full: Result<FullArchive, StorageError>)
        ensures
            match full {
                Ok(a) => {
                    &&& is_greatest_pick(
                        name_views(names@),
                        |n: Seq<char>| full_archive_stem(n),
                        Some(a.stem@),
                    )
                    &&& a.snar@ == snar_path_of(self@, a.stem@)
                    &&& a.archive@ == archive_path_of(self@, a.stem@)
                },
                Err(e) => e is NoFullArchives && is_greatest_pick(
                    name_views(names@),
                    |n: Seq<char>| full_archive_stem(n),
                    None,
                ),
            },
    {
        match last_full_archive_stem(names) {
            Some(stem) => Ok(
                FullArchive {
                    stem: String::from_str(stem),
                    archive: self.archive_path(stem),
                    snar: self.snar_path(stem),
                },
            ),
            None => Err(StorageError::NoFullArchives),
        }
    }

    /// Path of the newest snar file whose name starts with the given
    /// timestamp. A bare `<timestamp>.snar` wins over
    /// `<timestamp>.based-on-...` copies because it sorts after them.
    pub fn find_snar_by_timestamp(&self, names: &[String], base: &str) -> (snar: Result<
        String,
        StorageError,
    >)
        ensures
            is_snar_lookup(self@, name_views(names@), base@, snar),
    {
        match last_snar_starting_with(names, base) {
            Some(name) => {
                let path = join(self.dir.as_str(), name);
                assert(is_greatest_pick(
                    name_views(names@),
                    |n: Seq<char>| snar_starting_with(base@, n),
                    Some(name@),
                ) && path@ == join_path(self@, name@));
                Ok(path)
            },
            None => Err(StorageError::SnarNotFound { timestamp: String::from_str(base) }),
        }
    }
}

} // verus!
