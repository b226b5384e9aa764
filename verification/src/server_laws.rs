//! What holds of the storage server: which videos it is asked for, and under which paths.
use crate::models::{AppSettings, VideoRecord};
use crate::nas_preprocess;
use crate::nas_preprocess::RemoteOutcome;
use crate::text;
use vstd::prelude::*;

verus! {

/// The server is used exactly where it is switched on and both its name and its folder are given.
pub proof fn law_server_needs_name_and_folder(settings: AppSettings)
    ensures
        text::trimmed(settings.nas_ssh_host@).len() == 0 ==> !nas_preprocess::is_enabled(settings),
        text::trimmed(settings.nas_remote_root@).len() == 0 ==> !nas_preprocess::is_enabled(
            settings,
        ),
        !settings.nas_ssh_preprocess_enabled ==> !nas_preprocess::is_enabled(settings),
        settings.nas_ssh_preprocess_enabled && text::trimmed(settings.nas_ssh_host@).len() > 0
            && text::trimmed(settings.nas_remote_root@).len() > 0 ==> nas_preprocess::is_enabled(
            settings,
        ),
{
}

/// A path in the shared folder is told to the server by the part behind the folder, joined to the
/// folder's own path there, with slashes.
pub proof fn law_shared_paths_are_told_to_the_server(
    path: Seq<char>,
    settings: AppSettings,
    part: Seq<char>,
)
    requires
        nas_preprocess::plain_path(path) == nas_preprocess::plain_path(
            nas_preprocess::share_root(settings),
        ) + seq!['\\'] + part,
        part.len() > 0,
        nas_preprocess::server_root(settings).len() > 0,
    ensures
        ({
            let told = nas_preprocess::remote_path(path, settings);
            let root = nas_preprocess::server_root(settings);
            &&& told is Ok
            &&& told->Ok_0.len() == root.len() + 1 + part.len()
            &&& root.is_prefix_of(told->Ok_0)
            &&& told->Ok_0[root.len() as int] == '/'
            &&& forall|k: int|
                0 <= k < part.len() ==> #[trigger] told->Ok_0[root.len() + 1 + k] == (if part[k]
                    == '\\' {
                    '/'
                } else {
                    part[k]
                })
        }),
{
    reveal_strlit("/");
    let own = nas_preprocess::plain_path(path);
    let share = nas_preprocess::plain_path(nas_preprocess::share_root(settings));
    assert(share.push('\\') =~= own.subrange(0, (share.len() + 1) as int));
    assert(own.skip((share.len() + 1) as int) =~= part);
    let root = nas_preprocess::server_root(settings);
    let told = root + "/"@ + text::replaced(part, '\\', '/');
    assert(root =~= told.subrange(0, root.len() as int));
    assert(own.len() > share.len());
}

/// A path outside the shared folder is not told to the server.
pub proof fn law_other_paths_are_not_told(path: Seq<char>, settings: AppSettings)
    ensures
        nas_preprocess::remote_path(path, settings) is Ok ==> crate::settings_laws::is_at_or_below(
            nas_preprocess::plain_path(path),
            nas_preprocess::plain_path(nas_preprocess::share_root(settings)),
        ),
        nas_preprocess::server_root(settings).len() == 0 ==> nas_preprocess::remote_path(
            path,
            settings,
        ) is Err,
{
    let own = nas_preprocess::plain_path(path);
    let share = nas_preprocess::plain_path(nas_preprocess::share_root(settings));
    if share.push('\\').is_prefix_of(own) {
        assert(share.push('\\') =~= own.subrange(0, (share.len() + 1) as int));
        assert(own.take(share.len() as int) =~= share);
        assert(own[share.len() as int] == share.push('\\')[share.len() as int]);
    }
}

/// The server is asked for exactly the videos with an id whose frames are not there yet.
pub proof fn law_missing_frames_are_asked_for(
    videos: Seq<VideoRecord>,
    cached: Seq<bool>,
    n: int,
    i: int,
)
    requires
        0 <= i < videos.len() <= usize::MAX,
        0 <= n <= videos.len(),
        cached.len() == videos.len(),
    ensures
        nas_preprocess::asked_videos(videos, cached, n).contains(i as usize) <==> i < n
            && videos[i].id is Some && !cached[i],
    decreases n,
{
    if n > 0 {
        law_missing_frames_are_asked_for(videos, cached, n - 1, i);
        let rest = nas_preprocess::asked_videos(videos, cached, n - 1);
        let all = nas_preprocess::asked_videos(videos, cached, n);
        let own = i as usize;
        if rest.contains(own) {
            let at = choose|at: int| 0 <= at < rest.len() && rest[at] == own;
            assert(all[at] == own);
        }
        if i == n - 1 && videos[i].id is Some && !cached[i] {
            assert(all[rest.len() as int] == own);
        }
        if all.contains(own) && !rest.contains(own) {
            let at = choose|at: int| 0 <= at < all.len() && all[at] == own;
            if at < rest.len() {
                assert(rest[at] == own);
            }
        }
    }
}

/// A video whose path cannot be told stops the request, and the first such video is named.
pub proof fn law_first_untold_path_is_named(
    videos: Seq<VideoRecord>,
    cached: Seq<bool>,
    settings: AppSettings,
    i: int,
)
    requires
        0 <= i <= videos.len(),
        cached.len() == videos.len(),
    ensures
        match nas_preprocess::first_lost(videos, cached, settings, i) {
            Some(k) => {
                &&& i <= k < videos.len()
                &&& videos[k].id is Some && !cached[k]
                &&& nas_preprocess::remote_path(videos[k].path@, settings) is Err
                &&& forall|j: int|
                    i <= j < k && (#[trigger] videos[j]).id is Some && !cached[j]
                        ==> nas_preprocess::remote_path(videos[j].path@, settings) is Ok
            },
            None => forall|j: int|
                i <= j < videos.len() && (#[trigger] videos[j]).id is Some && !cached[j]
                    ==> nas_preprocess::remote_path(videos[j].path@, settings) is Ok,
        },
    decreases videos.len() - i,
{
    if i < videos.len() {
        law_first_untold_path_is_named(videos, cached, settings, i + 1);
    }
}

/// An answer is for the last video with its id.
pub proof fn law_answers_are_for_the_last_video(videos: Seq<VideoRecord>, id: i64, n: int)
    requires
        0 <= n <= videos.len() <= usize::MAX,
    ensures
        match nas_preprocess::last_with_id(videos, id, n) {
            Some(k) => {
                &&& k < n
                &&& videos[k as int].id == Some(id)
                &&& forall|j: int| k < j < n ==> (#[trigger] videos[j]).id != Some(id)
            },
            None => forall|j: int| 0 <= j < n ==> (#[trigger] videos[j]).id != Some(id),
        },
    decreases n,
{
    if n > 0 && videos[n - 1].id != Some(id) {
        law_answers_are_for_the_last_video(videos, id, n - 1);
    }
}

/// Frames are taken from the server only where the size that it tells, if it does, and the length are
/// those of the video.
pub proof fn law_frames_of_other_files_are_refused(
    remote_size: Option<u64>,
    size: u64,
    lengths_differ: bool,
    remote_length: Seq<char>,
    length: Seq<char>,
)
    ensures
        nas_preprocess::remote_trouble(remote_size, size, lengths_differ, remote_length, length)
            is None <==> !lengths_differ && (remote_size is None || remote_size == Some(size)),
{
}

/// Only imported frames leave no message.
pub proof fn law_failures_are_told(path: Seq<char>, outcome: RemoteOutcome)
    ensures
        nas_preprocess::outcome_error(path, outcome) is None <==> outcome is Imported,
        nas_preprocess::outcome_error(path, outcome) matches Some(message) ==> path.is_prefix_of(
            message,
        ),
{
    if let Some(message) = nas_preprocess::outcome_error(path, outcome) {
        assert(path =~= message.subrange(0, path.len() as int));
    }
}

proof fn lemma_place_by_number(numbers: Seq<usize>, list: Seq<usize>, i: usize)
    ensures
        ({
            let p = nas_preprocess::place_by_number(numbers, list, i);
            &&& 0 <= p <= list.len()
            &&& p > 0 ==> numbers[list[p - 1] as int] <= numbers[i as int]
            &&& forall|k: int|
                p <= k < list.len() ==> numbers[(#[trigger] list[k]) as int] > numbers[i as int]
        }),
    decreases list.len(),
{
    if list.len() > 0 && numbers[list.last() as int] > numbers[i as int] {
        let head = list.drop_last();
        lemma_place_by_number(numbers, head, i);
        let p = nas_preprocess::place_by_number(numbers, list, i);
        if p > 0 {
            assert(head[p - 1] == list[p - 1]);
        }
        assert forall|k: int| p <= k < list.len() implies numbers[(#[trigger] list[k]) as int]
            > numbers[i as int] by {
            if k < head.len() {
                assert(head[k] == list[k]);
            }
        }
    }
}

/// Frames are put in the order of their numbers, and none is lost.
pub proof fn law_frames_are_put_in_order(numbers: Seq<usize>, n: int)
    requires
        0 <= n <= numbers.len() <= usize::MAX,
    ensures
        nas_preprocess::by_number(numbers, n).len() == n,
        forall|j: int, k: int|
            0 <= j <= k < n ==> numbers[#[trigger] nas_preprocess::by_number(numbers, n)[j] as int]
                <= numbers[#[trigger] nas_preprocess::by_number(numbers, n)[k] as int],
        forall|i: int|
            0 <= i < n ==> #[trigger] nas_preprocess::by_number(numbers, n).contains(i as usize),
        forall|k: int| 0 <= k < n ==> #[trigger] nas_preprocess::by_number(numbers, n)[k] < n,
    decreases n,
{
    if n > 0 {
        law_frames_are_put_in_order(numbers, n - 1);
        let rest = nas_preprocess::by_number(numbers, n - 1);
        let own = (n - 1) as usize;
        lemma_place_by_number(numbers, rest, own);
        let p = nas_preprocess::place_by_number(numbers, rest, own);
        let all = nas_preprocess::by_number(numbers, n);
        assert(all =~= rest.insert(p, own));
        assert forall|j: int, k: int| 0 <= j <= k < n implies numbers[#[trigger] all[j] as int]
            <= numbers[#[trigger] all[k] as int] by {
            if j < p {
                assert(all[j] == rest[j]);
                if p > 0 {
                    assert(numbers[rest[j] as int] <= numbers[rest[p - 1] as int]);
                }
            }
            if j > p {
                assert(all[j] == rest[j - 1]);
            }
            if k < p {
                assert(all[k] == rest[k]);
            }
            if k > p {
                assert(all[k] == rest[k - 1]);
            }
        }
        assert forall|i: int| 0 <= i < n implies #[trigger] all.contains(i as usize) by {
            if i == n - 1 {
                assert(all[p] == i as usize);
            } else {
                assert(rest.contains(i as usize));
                let at = choose|at: int| 0 <= at < rest.len() && rest[at] == i as usize;
                if at < p {
                    assert(all[at] == i as usize);
                } else {
                    assert(all[at + 1] == i as usize);
                }
            }
        }
        assert forall|k: int| 0 <= k < n implies #[trigger] all[k] < n by {
            if k < p {
                assert(all[k] == rest[k]);
            } else if k > p {
                assert(all[k] == rest[k - 1]);
            }
        }
    }
}

/// A password is only handed over together with the target, and the key of the server where one is
/// known.
pub proof fn law_server_keys_are_handed_over(settings: AppSettings, target: Seq<char>, batch: bool)
    ensures
        ({
            let arguments = nas_preprocess::plink_arguments(settings, target, batch);
            let key = text::trimmed(settings.nas_ssh_host_key@);
            &&& arguments.last() == target
            &&& arguments[2] == text::decimal(settings.nas_ssh_port as nat)
            &&& arguments[3] == "-pw"@ && arguments[4] == settings.nas_ssh_password@
            &&& key.len() > 0 ==> arguments[5] == "-hostkey"@ && arguments[6] == key
            &&& batch ==> arguments[arguments.len() - 2] == "-batch"@
        }),
        nas_preprocess::ssh_arguments(settings.nas_ssh_port, target)[1] == text::decimal(
            settings.nas_ssh_port as nat,
        ),
        nas_preprocess::ssh_arguments(settings.nas_ssh_port, target)[6] == target,
{
}

} // verus!
