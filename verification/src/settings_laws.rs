//! What holds of the settings: their ranges, what is kept of them, and which paths they allow.
use crate::double::Double;
use crate::paths;
use crate::paths::RootData;
use crate::settings;
use crate::settings::SettingsData;
use crate::text;
use vstd::prelude::*;

verus! {

/// Whether a number was moved into a range: one within stays, one below or above goes to the bound.
pub open spec fn is_moved_into(value: int, moved: int, low: int, high: int) -> bool {
    &&& low <= value <= high ==> moved == value
    &&& value < low ==> moved == low
    &&& value > high ==> moved == high
}

/// Saved settings lie in their ranges.
pub proof fn law_saved_numbers_lie_in_range(d: SettingsData, root: RootData)
    ensures
        ({
            let s = settings::saved_data(d, root);
            &&& is_moved_into(d.scan_worker_count as int, s.scan_worker_count as int, 1, 4)
            &&& is_moved_into(d.sample_hash_count as int, s.sample_hash_count as int, 3, 20)
            &&& is_moved_into(
                d.temporal_hash_threshold as int,
                s.temporal_hash_threshold as int,
                6,
                24,
            )
            &&& is_moved_into(
                d.min_temporal_match_points as int,
                s.min_temporal_match_points as int,
                1,
                10,
            )
            &&& is_moved_into(
                d.allowed_unmatched_sample_frames as int,
                s.allowed_unmatched_sample_frames as int,
                0,
                20,
            )
            &&& is_moved_into(d.ai_frame_count as int, s.ai_frame_count as int, 8, 512)
            &&& is_moved_into(d.ai_batch_size as int, s.ai_batch_size as int, 1, 64)
            &&& is_moved_into(d.ai_min_matched_frames as int, s.ai_min_matched_frames as int, 1, 128)
            &&& is_moved_into(
                d.ai_extract_worker_count as int,
                s.ai_extract_worker_count as int,
                1,
                8,
            )
            &&& is_moved_into(d.ai_gpu_worker_count as int, s.ai_gpu_worker_count as int, 1, 64)
            &&& is_moved_into(d.ai_match_worker_count as int, s.ai_match_worker_count as int, 1, 128)
            &&& is_moved_into(d.ram_disk_size_mb as int, s.ram_disk_size_mb as int, 512, 1_048_576)
            &&& is_moved_into(
                d.local_preprocess_video_workers as int,
                s.local_preprocess_video_workers as int,
                1,
                8,
            )
            &&& is_moved_into(
                d.local_preprocess_overlap_start_percent as int,
                s.local_preprocess_overlap_start_percent as int,
                50,
                99,
            )
            &&& is_moved_into(
                d.local_preprocess_process_workers as int,
                s.local_preprocess_process_workers as int,
                1,
                4,
            )
            &&& is_moved_into(
                d.local_preprocess_frame_workers as int,
                s.local_preprocess_frame_workers as int,
                1,
                64,
            )
            &&& is_moved_into(
                d.local_preprocess_secondary_threshold_mb as int,
                s.local_preprocess_secondary_threshold_mb as int,
                512,
                1_048_576,
            )
        }),
{
}

/// Settings that are read lie in the ranges that do not wait for the next saving.
pub proof fn law_loaded_numbers_lie_in_range(d: SettingsData, root: RootData)
    ensures
        ({
            let s = settings::loaded_data(d, root);
            &&& is_moved_into(d.ai_gpu_worker_count as int, s.ai_gpu_worker_count as int, 1, 64)
            &&& is_moved_into(d.ai_match_worker_count as int, s.ai_match_worker_count as int, 1, 128)
            &&& is_moved_into(d.ram_disk_size_mb as int, s.ram_disk_size_mb as int, 512, 1_048_576)
            &&& is_moved_into(
                d.local_preprocess_video_workers as int,
                s.local_preprocess_video_workers as int,
                1,
                8,
            )
            &&& is_moved_into(
                d.local_preprocess_overlap_start_percent as int,
                s.local_preprocess_overlap_start_percent as int,
                50,
                99,
            )
            &&& is_moved_into(
                d.local_preprocess_process_workers as int,
                s.local_preprocess_process_workers as int,
                1,
                4,
            )
            &&& is_moved_into(
                d.local_preprocess_secondary_threshold_mb as int,
                s.local_preprocess_secondary_threshold_mb as int,
                512,
                1_048_576,
            )
            &&& s.scan_worker_count == d.scan_worker_count
            &&& s.sample_hash_count == d.sample_hash_count
            &&& s.temporal_hash_threshold == d.temporal_hash_threshold
            &&& s.min_temporal_match_points == d.min_temporal_match_points
            &&& s.allowed_unmatched_sample_frames == d.allowed_unmatched_sample_frames
            &&& s.ai_frame_count == d.ai_frame_count
            &&& s.ai_batch_size == d.ai_batch_size
            &&& s.ai_similarity_threshold == d.ai_similarity_threshold
            &&& s.ai_min_matched_frames == d.ai_min_matched_frames
            &&& s.backup_dir == d.backup_dir
            &&& s.naming_source_dirs == d.naming_source_dirs
            &&& s.ai_model_path == d.ai_model_path
        }),
{
}

/// Reading and saving change no choice of the user: neither what may be deleted, nor where it may be
/// scanned, nor what is compared.
pub proof fn law_choices_are_kept(d: SettingsData, root: RootData)
    ensures
        ({
            let s = settings::saved_data(d, root);
            &&& s.allow_direct_delete == d.allow_direct_delete
            &&& s.restrict_scan_to_test_path == d.restrict_scan_to_test_path
            &&& s.compare_within_same_folder == d.compare_within_same_folder
            &&& s.ai_vision_enabled == d.ai_vision_enabled
            &&& s.ai_clip_matching_enabled == d.ai_clip_matching_enabled
            &&& s.ai_index_after_scan == d.ai_index_after_scan
            &&& s.delete_ai_frame_cache_after_index == d.delete_ai_frame_cache_after_index
            &&& s.ram_disk_enabled == d.ram_disk_enabled
            &&& s.ram_disk_setup_completed == d.ram_disk_setup_completed
        }),
        ({
            let s = settings::loaded_data(d, root);
            &&& s.allow_direct_delete == d.allow_direct_delete
            &&& s.restrict_scan_to_test_path == d.restrict_scan_to_test_path
            &&& s.compare_within_same_folder == d.compare_within_same_folder
            &&& s.ai_vision_enabled == d.ai_vision_enabled
            &&& s.ai_clip_matching_enabled == d.ai_clip_matching_enabled
            &&& s.ai_index_after_scan == d.ai_index_after_scan
            &&& s.delete_ai_frame_cache_after_index == d.delete_ai_frame_cache_after_index
            &&& s.ram_disk_enabled == d.ram_disk_enabled
            &&& s.ram_disk_setup_completed == d.ram_disk_setup_completed
        }),
{
}

/// At first nothing may be deleted, and only the test path may be scanned.
pub proof fn law_first_settings_are_careful(root: RootData)
    ensures
        !settings::default_data(root).allow_direct_delete,
        settings::default_data(root).restrict_scan_to_test_path,
        !settings::default_data(root).delete_ai_frame_cache_after_index,
        settings::default_data(root).naming_source_dirs.len() == 0,
{
}

/// A folder or a model path that is given is kept, without white space around it; an empty one is
/// replaced by the one of the first settings.
pub proof fn law_given_paths_are_kept(d: SettingsData, root: RootData)
    ensures
        ({
            let s = settings::saved_data(d, root);
            let first = settings::default_data(root);
            &&& text::trimmed(d.backup_dir).len() > 0 ==> s.backup_dir == text::trimmed(
                d.backup_dir,
            )
            &&& text::trimmed(d.backup_dir).len() == 0 ==> s.backup_dir == first.backup_dir
            &&& text::trimmed(d.ai_model_path).len() > 0 ==> s.ai_model_path == text::trimmed(
                d.ai_model_path,
            )
            &&& text::trimmed(d.ai_model_path).len() == 0 ==> s.ai_model_path
                == first.ai_model_path
            &&& text::trimmed(d.local_preprocess_temp_dir).len() > 0
                ==> s.local_preprocess_temp_dir == text::trimmed(d.local_preprocess_temp_dir)
            &&& text::trimmed(d.local_preprocess_secondary_temp_dir).len() > 0
                ==> s.local_preprocess_secondary_temp_dir == text::trimmed(
                d.local_preprocess_secondary_temp_dir,
            )
        }),
{
}

/// How alike frames must be is kept from 0 to 0.99, and how close lengths must be for the size to
/// decide from nothing to a day.
pub proof fn law_saved_measures_lie_in_range(d: SettingsData, root: RootData)
    requires
        d.ai_similarity_threshold.finite(),
    ensures
        ({
            let s = settings::saved_data(d, root);
            &&& Double::of(0).le(s.ai_similarity_threshold)
            &&& s.ai_similarity_threshold.le(Double::of(0x3FEF_AE14_7AE1_47AE))
            &&& Double::of(0).le(d.ai_similarity_threshold) && d.ai_similarity_threshold.le(
                Double::of(0x3FEF_AE14_7AE1_47AE),
            ) ==> s.ai_similarity_threshold == d.ai_similarity_threshold
            &&& Double::of(0).le(s.keeper_size_priority_duration_seconds)
            &&& s.keeper_size_priority_duration_seconds.le(Double::of(0x40F5_1800_0000_0000))
            &&& Double::of(0).le(d.keeper_size_priority_duration_seconds)
                && d.keeper_size_priority_duration_seconds.le(Double::of(0x40F5_1800_0000_0000))
                ==> s.keeper_size_priority_duration_seconds
                == d.keeper_size_priority_duration_seconds
            &&& !d.keeper_size_priority_duration_seconds.finite()
                ==> s.keeper_size_priority_duration_seconds == Double::of(0x4072_C000_0000_0000)
        }),
{
}

/// The language is English where that is written, in either case and with white space around it, and
/// else Chinese; a device other than "gpu" and "cpu" is chosen by the program.
pub proof fn law_names_are_read_loosely(value: Seq<char>)
    ensures
        ({
            let name = text::ascii_lowered(text::trimmed(value));
            &&& settings::language(value) == "en"@ || settings::language(value) == "zh"@
            &&& name == "en"@ || name == "english"@ ==> settings::language(value) == "en"@
            &&& name != "en"@ && name != "english"@ ==> settings::language(value) == "zh"@
            &&& name == "gpu"@ ==> settings::device(value) == "gpu"@
            &&& name == "cpu"@ ==> settings::device(value) == "cpu"@
            &&& name != "gpu"@ && name != "cpu"@ ==> settings::device(value) == "auto"@
        }),
{
    reveal_strlit("gpu");
    reveal_strlit("cpu");
    assert("gpu"@[0] != "cpu"@[0]);
}

/// No folder for names is listed twice or empty, and each that was given is listed.
pub proof fn law_folders_are_listed_once(list: Seq<Seq<char>>)
    ensures
        ({
            let kept = settings::distinct_folders(list);
            &&& forall|i: int, j: int|
                #![trigger kept[i], kept[j]]
                0 <= i < j < kept.len() ==> settings::folder_key(kept[i]) != settings::folder_key(
                    kept[j],
                )
            &&& forall|i: int| 0 <= i < kept.len() ==> (#[trigger] kept[i]).len() > 0
            &&& forall|k: int|
                #![trigger list[k]]
                0 <= k < list.len() && text::trimmed(list[k]).len() > 0 ==> settings::lists_folder(
                    kept,
                    text::trimmed(list[k]),
                )
            &&& forall|i: int|
                0 <= i < kept.len() ==> exists|k: int|
                    0 <= k < list.len() && text::trimmed(#[trigger] list[k]) == #[trigger] kept[i]
        }),
    decreases list.len(),
{
    if list.len() > 0 {
        let before = list.drop_last();
        law_folders_are_listed_once(before);
        let rest = settings::distinct_folders(before);
        let kept = settings::distinct_folders(list);
        let path = text::trimmed(list.last());
        assert(list[list.len() - 1] == list.last());
        assert forall|k: int|
            #![trigger list[k]]
            0 <= k < list.len() && text::trimmed(list[k]).len() > 0 implies settings::lists_folder(
            kept,
            text::trimmed(list[k]),
        ) by {
            if k < before.len() {
                assert(before[k] == list[k]);
                assert(settings::lists_folder(rest, text::trimmed(before[k])));
                let at = choose|at: int|
                    0 <= at < rest.len() && settings::folder_key(#[trigger] rest[at])
                        == settings::folder_key(text::trimmed(list[k]));
                assert(kept[at] == rest[at]);
            } else if !settings::lists_folder(rest, path) {
                assert(kept[rest.len() as int] == path);
            }
        }
        assert forall|i: int| 0 <= i < kept.len() implies exists|k: int|
            0 <= k < list.len() && text::trimmed(#[trigger] list[k]) == #[trigger] kept[i] by {
            if i < rest.len() {
                assert(kept[i] == rest[i]);
                let k = choose|k: int|
                    0 <= k < before.len() && text::trimmed(#[trigger] before[k]) == rest[i];
                assert(list[k] == before[k]);
            } else {
                assert(text::trimmed(list[list.len() - 1]) == kept[i]);
            }
        }
        assert forall|i: int, j: int|
            #![trigger kept[i], kept[j]]
            0 <= i < j < kept.len() implies settings::folder_key(kept[i]) != settings::folder_key(
            kept[j],
        ) by {
            assert(kept[i] == rest[i]);
            if j < rest.len() {
                assert(kept[j] == rest[j]);
            }
        }
    }
}

/// Without the restriction every path may be worked on; with it only the allowed source and the
/// samples may, and what lies under them.
pub proof fn law_restriction_bounds_paths(path: Seq<char>, root: RootData)
    ensures
        settings::path_allowed(path, false, root),
        settings::path_allowed(path, true, root) ==> exists|dir: Seq<char>|
            (dir == text::lowercase(r"\\EXAMPLE-NAS\Test"@) || dir == text::lowercase(
                text::replaced(paths::joined(root.host, root.path, "samples"@), '/', '\\'),
            )) && #[trigger] is_at_or_below(text::lowercase(text::replaced(path, '/', '\\')), dir),
{
    if settings::path_allowed(path, true, root) {
        let form = text::lowercase(text::replaced(path, '/', '\\'));
        let source = text::lowercase(r"\\EXAMPLE-NAS\Test"@);
        let samples = text::lowercase(
            text::replaced(paths::joined(root.host, root.path, "samples"@), '/', '\\'),
        );
        if paths::is_or_under(form, source) {
            lemma_under(form, source);
            assert(is_at_or_below(form, source));
        } else {
            lemma_under(form, samples);
            assert(is_at_or_below(form, samples));
        }
    }
}

/// Whether a path is a folder, or continues its path behind a backslash.
pub open spec fn is_at_or_below(path: Seq<char>, dir: Seq<char>) -> bool {
    path == dir || (path.len() > dir.len() && path.take(dir.len() as int) == dir
        && path[dir.len() as int] == '\\')
}

proof fn lemma_under(path: Seq<char>, dir: Seq<char>)
    requires
        paths::is_or_under(path, dir),
    ensures
        is_at_or_below(path, dir),
{
    if path != dir {
        let longer = dir.push('\\');
        assert(longer =~= path.subrange(0, longer.len() as int));
        assert(path.take(dir.len() as int) =~= dir);
        assert(path[dir.len() as int] == longer[dir.len() as int]);
    }
}

/// The numbers of the first settings.
pub proof fn law_first_numbers(root: RootData)
    ensures
        ({
            let s = settings::default_data(root);
            &&& s.scan_worker_count == 1 && s.sample_hash_count == 11
            &&& s.temporal_hash_threshold == 8 && s.min_temporal_match_points == 3
            &&& s.allowed_unmatched_sample_frames == 14
            &&& s.ai_frame_count == 128 && s.ai_batch_size == 32 && s.ai_min_matched_frames == 8
            &&& s.ai_extract_worker_count == 4 && s.ai_gpu_worker_count == 4
            &&& s.ai_match_worker_count == 8
            &&& s.ram_disk_size_mb == 16_384
            &&& s.local_preprocess_video_workers == 1
            &&& s.local_preprocess_overlap_start_percent == 95
            &&& s.local_preprocess_process_workers == 2 && s.local_preprocess_frame_workers == 16
            &&& s.local_preprocess_secondary_threshold_mb == 16_384
            &&& s.nas_ssh_port == 22 && s.nas_ssh_ffmpeg_workers == 1
            &&& s.ai_similarity_threshold == Double::of(0x3FEB_851E_B851_EB85)
            &&& s.keeper_size_priority_duration_seconds == Double::of(0x4072_C000_0000_0000)
            &&& s.ai_vision_enabled && s.ai_clip_matching_enabled && s.ai_index_after_scan
            &&& s.ai_frame_cache_enabled && s.ram_disk_enabled && s.local_preprocess_enabled
            &&& !s.compare_within_same_folder && !s.ram_disk_setup_completed
            &&& !s.nas_ssh_preprocess_enabled
        }),
{
}

} // verus!
