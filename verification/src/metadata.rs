//! The remote metadata record of one item, the locally known item, and the
//! decisions made over them: which records permit installation, and when a
//! remote copy counts as newer than the local one.

use vstd::prelude::*;

verus! {

/// One tag of a remote record.
pub struct Tag {
    pub tag: String,
}

/// The remote repository's record of one item.
pub struct WorkshopFileDetails {
    pub publishedfileid: String,
    pub result: i32,
    pub creator: String,
    pub creator_app_id: i32,
    pub consumer_app_id: i32,
    pub filename: String,
    pub file_size: u64,
    pub file_url: String,
    pub hcontent_file: String,
    pub preview_url: String,
    pub hcontent_preview: String,
    pub title: String,
    pub description: String,
    pub time_updated: i64,
    pub time_created: i64,
    pub visibility: i32,
    pub flags: i32,
    pub workshop_file_url: String,
    pub workshop_accepted: bool,
    pub show_subscribe_all: bool,
    pub num_comments_developer: i32,
    pub num_comments_public: i32,
    pub banned: bool,
    pub ban_reason: String,
    pub banner: String,
    pub can_be_deleted: bool,
    pub app_name: String,
    pub file_type: i32,
    pub can_subscribe: bool,
    pub subscriptions: i32,
    pub favorited: i32,
    pub followers: i32,
    pub lifetime_subscriptions: i32,
    pub lifetime_favorited: i32,
    pub lifetime_followers: i32,
    pub lifetime_playtime: String,
    pub lifetime_playtime_sessions: String,
    pub views: i32,
    pub num_children: i32,
    pub num_reports: i32,
    pub tags: Vec<Tag>,
}

/// A locally known item: where it is installed and what is known of it.
pub struct BaseMod {
    pub mod_id: String,
    pub mod_path: String,
    pub folder: Option<String>,
    pub details: Option<WorkshopFileDetails>,
    pub updated: Option<bool>,
    pub non_steam_mod: bool,
    pub preview_image_path: Option<String>,
}

/// The application id that items must belong to.
pub const EXPECTED_APP_ID: i32 = 294100;

/// A record permits installation when it was found, is public, is not
/// banned, and belongs to the expected application.
pub open spec fn spec_is_eligible(result: i32, visibility: i32, banned: bool, creator_app_id: i32) -> bool {
    result == 1 && visibility == 0 && !banned && creator_app_id == EXPECTED_APP_ID
}

/// Whether a remote record permits fetching and installing its item.
pub fn is_eligible_for_update(details: &WorkshopFileDetails) -> (r: bool)
    ensures
        r == spec_is_eligible(
            details.result,
            details.visibility,
            details.banned,
            details.creator_app_id,
        ),
{
    details.result == 1 && details.visibility == 0 && !details.banned && details.creator_app_id
        == EXPECTED_APP_ID
}

/// Whether the remote copy counts as newer: more than one second newer
/// than the ignored-update mark when one is set, else more than one second
/// newer than the local copy (a remote copy older than the local one never
/// counts).
pub fn needs_update(
    remote_time_updated: i64,
    local_time_updated: i64,
    ignored_timestamp: Option<i64>,
) -> (r: bool)
    requires
        remote_time_updated >= 0,
        local_time_updated >= 0,
        match ignored_timestamp {
            Some(t) => t >= 0,
            None => true,
        },
    ensures
        r == match ignored_timestamp {
            Some(t) => remote_time_updated - t > 1,
            None => remote_time_updated - local_time_updated > 1,
        },
{
    match ignored_timestamp {
        Some(t) => remote_time_updated - t > 1,
        None => remote_time_updated - local_time_updated > 1,
    }
}

/// Every character is a decimal digit.
pub open spec fn all_digits(s: Seq<char>) -> bool {
    forall|i: int| 0 <= i < s.len() ==> '0' <= #[trigger] s[i] && s[i] <= '9'
}

/// The number a digit string denotes.
pub open spec fn digits_value(s: Seq<char>) -> int
    decreases s.len(),
{
    if s.len() == 0 {
        0
    } else {
        digits_value(s.drop_last()) * 10 + (s.last() as int - '0' as int)
    }
}

proof fn lemma_digits_nonneg(s: Seq<char>)
    requires
        all_digits(s),
    ensures
        digits_value(s) >= 0,
    decreases s.len(),
{
    if s.len() > 0 {
        assert(all_digits(s.drop_last()));
        lemma_digits_nonneg(s.drop_last());
    }
}

proof fn lemma_digits_prefix_le(s: Seq<char>, k: int)
    requires
        all_digits(s),
        0 <= k <= s.len(),
    ensures
        digits_value(s.take(k)) <= digits_value(s),
    decreases s.len(),
{
    if k == s.len() {
        assert(s.take(k) =~= s);
    } else {
        assert(s.take(k) =~= s.drop_last().take(k));
        assert(all_digits(s.drop_last()));
        lemma_digits_prefix_le(s.drop_last(), k);
        lemma_digits_nonneg(s.drop_last());
    }
}

/// The timestamp a marker file's content records: its trimmed text read as
/// a positive decimal number that fits, nothing otherwise.
pub fn parse_timestamp(content: &str) -> (r: Option<i64>)
    ensures
        ({
            let t = crate::strings::spec_trim_ws(content@);
            match r {
                Some(v) => t.len() > 0 && all_digits(t) && v == digits_value(t) && v > 0,
                None => !(t.len() > 0 && all_digits(t) && 0 < digits_value(t) <= i64::MAX),
            }
        }),
{
    let trimmed = crate::strings::trim_ws_string(content);
    let cs = crate::strings::str_to_chars(trimmed.as_str());
    let ghost t = crate::strings::spec_trim_ws(content@);
    let n = cs.len();
    if n == 0 {
        return None;
    }
    let mut acc: i64 = 0;
    let mut i: usize = 0;
    proof {
        assert(t.take(0) =~= Seq::<char>::empty());
    }
    while i < n
        invariant
            n == cs@.len(),
            cs@ == t,
            t == crate::strings::spec_trim_ws(content@),
            i <= n,
            all_digits(t.take(i as int)),
            acc == digits_value(t.take(i as int)),
            acc >= 0,
        decreases n - i,
    {
        let c = cs[i];
        if !('0' <= c && c <= '9') {
            proof {
                assert(t[i as int] == c);
                assert(!all_digits(t));
            }
            return None;
        }
        let d: i64 = ((c as u32) - ('0' as u32)) as i64;
        proof {
            assert(t.take(i + 1).drop_last() =~= t.take(i as int));
            assert(t.take(i + 1).last() == t[i as int]);
            assert(all_digits(t.take(i + 1)));
        }
        if acc > (i64::MAX - d) / 10 {
            proof {
                assert(digits_value(t.take(i + 1)) == acc * 10 + d);
                assert(acc * 10 + d > i64::MAX) by (nonlinear_arith)
                    requires
                        acc > (i64::MAX - d) / 10,
                        acc >= 0,
                        0 <= d <= 9,
                ;
                if all_digits(t) {
                    lemma_digits_prefix_le(t, i + 1);
                }
            }
            return None;
        }
        acc = acc * 10 + d;
        i = i + 1;
    }
    proof {
        assert(t.take(n as int) =~= t);
    }
    if acc > 0 {
        Some(acc)
    } else {
        proof {
            lemma_digits_nonneg(t);
        }
        None
    }
}

/// The record the observer synthesises for an item found on disk: the id,
/// the folder name as its title, the local update time, and everything
/// else empty — or nothing at all when no update time is known (such an
/// item is sorted by name instead).
pub fn details_for_local_mod(mod_id: &str, title: &str, time_updated: i64) -> (r: Option<
    WorkshopFileDetails,
>)
    ensures
        (r is Some) == (time_updated > 0),
        match r {
            Some(d) => {
                &&& d.publishedfileid@ == mod_id@
                &&& d.result == 1
                &&& d.creator@.len() == 0
                &&& d.creator_app_id == EXPECTED_APP_ID
                &&& d.consumer_app_id == EXPECTED_APP_ID
                &&& d.filename@.len() == 0
                &&& d.file_size == 0
                &&& d.title@ == title@
                &&& d.description@.len() == 0
                &&& d.time_updated == time_updated
                &&& d.time_created == time_updated
                &&& d.visibility == 0
                &&& d.flags == 0
                &&& !d.workshop_accepted
                &&& !d.show_subscribe_all
                &&& d.num_comments_developer == 0
                &&& d.num_comments_public == 0
                &&& !d.banned
                &&& !d.can_be_deleted
                &&& d.file_type == 0
                &&& !d.can_subscribe
                &&& d.subscriptions == 0
                &&& d.favorited == 0
                &&& d.followers == 0
                &&& d.lifetime_subscriptions == 0
                &&& d.lifetime_favorited == 0
                &&& d.lifetime_followers == 0
                &&& d.views == 0
                &&& d.num_children == 0
                &&& d.num_reports == 0
                &&& d.tags@.len() == 0
            },
            None => true,
        },
{
    if time_updated > 0 {
        Some(
            WorkshopFileDetails {
                publishedfileid: String::from_str(mod_id),
                result: 1,
                creator: String::new(),
                creator_app_id: EXPECTED_APP_ID,
                consumer_app_id: EXPECTED_APP_ID,
                filename: String::new(),
                file_size: 0,
                file_url: String::new(),
                hcontent_file: String::new(),
                preview_url: String::new(),
                hcontent_preview: String::new(),
                title: String::from_str(title),
                description: String::new(),
                time_updated,
                time_created: time_updated,
                visibility: 0,
                flags: 0,
                workshop_file_url: String::new(),
                workshop_accepted: false,
                show_subscribe_all: false,
                num_comments_developer: 0,
                num_comments_public: 0,
                banned: false,
                ban_reason: String::new(),
                banner: String::new(),
                can_be_deleted: false,
                app_name: String::new(),
                file_type: 0,
                can_subscribe: false,
                subscriptions: 0,
                favorited: 0,
                followers: 0,
                lifetime_subscriptions: 0,
                lifetime_favorited: 0,
                lifetime_followers: 0,
                lifetime_playtime: String::new(),
                lifetime_playtime_sessions: String::new(),
                views: 0,
                num_children: 0,
                num_reports: 0,
                tags: Vec::new(),
            },
        )
    } else {
        None
    }
}

/// Input of a bulk update request.
pub struct UpdateModsInput {
    pub mods: Vec<BaseMod>,
    pub backup_mods: bool,
    pub backup_directory: Option<String>,
}

/// Input of a backup query for one item.
pub struct BackupInput {
    pub mod_path: String,
    pub backup_directory: Option<String>,
}

/// Input of a backup query for several items.
pub struct BackupBatchInput {
    pub mod_paths: Vec<String>,
    pub backup_directory: Option<String>,
}

/// Input of a restore request for one item.
pub struct RestoreBackupInput {
    pub mod_path: String,
    pub backup_directory: String,
}

/// Input of a restore request for several items.
pub struct RestoreBackupBatchInput {
    pub mod_paths: Vec<String>,
    pub backup_directory: String,
}

/// Input of a single-item fetch request.
pub struct DownloadModInput {
    pub mod_id: String,
    pub title: Option<String>,
    pub mods_path: String,
}

} // verus!
