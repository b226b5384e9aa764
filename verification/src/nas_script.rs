//! The script that takes frames on the storage server.
use vstd::prelude::*;

verus! {

/// What stands before the request in the script.
pub const SCRIPT_HEAD: &'static str = r#"set -euo pipefail
tmp="$(mktemp -d /tmp/dvs-nas-preprocess.XXXXXX)"
worker_pid=""
cleanup() {
  trap - EXIT HUP INT TERM
  if [ -n "$worker_pid" ]; then
    pkill -TERM -P "$worker_pid" 2>/dev/null || true
    kill "$worker_pid" 2>/dev/null || true
    wait "$worker_pid" 2>/dev/null || true
  fi
  rm -rf "$tmp"
}
trap cleanup EXIT HUP INT TERM
mkdir -p "$tmp/out/frames"
cat > "$tmp/request.json" <<'DVS_JSON'
"#;

/// What stands behind the request in the script.
pub const SCRIPT_BODY: &'static str = r#"
DVS_JSON
cat > "$tmp/worker.py" <<'DVS_PY'
import concurrent.futures
import json
import os
import subprocess
import sys

request_path = sys.argv[1]
out_dir = sys.argv[2]
with open(request_path, "r", encoding="utf-8") as f:
    request = json.load(f)

workers = max(1, min(int(request.get("workers", 1)), 4))

def parse_float(value):
    try:
        return float(value)
    except Exception:
        return None

def parse_int(value):
    try:
        return int(float(value))
    except Exception:
        return None

def probe(remote_path):
    output = subprocess.run(
        [
            "ffprobe",
            "-v",
            "error",
            "-print_format",
            "json",
            "-show_format",
            "-show_streams",
            remote_path,
        ],
        stdout=subprocess.PIPE,
        stderr=subprocess.PIPE,
        text=True,
    )
    if output.returncode != 0:
        raise RuntimeError(output.stderr.strip() or "ffprobe failed")
    data = json.loads(output.stdout or "{}")
    streams = data.get("streams") or []
    video = next((s for s in streams if s.get("codec_type") == "video"), {})
    fmt = data.get("format") or {}
    return {
        "durationSeconds": parse_float(fmt.get("duration")) or parse_float(video.get("duration")),
        "width": video.get("width"),
        "height": video.get("height"),
        "codec": video.get("codec_name"),
        "bitrate": parse_int(video.get("bit_rate")) or parse_int(fmt.get("bit_rate")),
    }

def process_video(item):
    result = {
        "id": item.get("id"),
        "smbPath": item.get("smbPath"),
        "remotePath": item.get("remotePath"),
        "status": "failed",
        "error": None,
        "sizeBytes": None,
        "modifiedUnixMs": None,
        "durationSeconds": item.get("durationSeconds"),
        "width": None,
        "height": None,
        "codec": None,
        "bitrate": None,
        "frames": [],
    }
    remote_path = item.get("remotePath")
    try:
        stat = os.stat(remote_path)
        result["sizeBytes"] = stat.st_size
        result["modifiedUnixMs"] = int(stat.st_mtime * 1000)
        result.update(probe(remote_path))
        video_dir = os.path.join(out_dir, "frames", str(item.get("id")))
        os.makedirs(video_dir, exist_ok=True)
        for index, position in enumerate(item.get("positions") or []):
            rel_name = "frames/{}/frame_{:04d}.jpg".format(item.get("id"), index)
            abs_name = os.path.join(out_dir, rel_name)
            ffmpeg = subprocess.run(
                [
                    "ffmpeg",
                    "-y",
                    "-hide_banner",
                    "-loglevel",
                    "error",
                    "-ss",
                    "{:.3f}".format(float(position)),
                    "-i",
                    remote_path,
                    "-frames:v",
                    "1",
                    "-vf",
                    "scale=-2:720:flags=lanczos",
                    "-q:v",
                    "3",
                    abs_name,
                ],
                stdout=subprocess.DEVNULL,
                stderr=subprocess.PIPE,
                text=True,
            )
            if ffmpeg.returncode == 0 and os.path.exists(abs_name):
                result["frames"].append(
                    {
                        "index": index,
                        "timestampSeconds": float(position),
                        "fileName": rel_name,
                    }
                )
            else:
                raise RuntimeError(ffmpeg.stderr.strip() or "ffmpeg frame extraction failed")
        result["status"] = "ok" if result["frames"] else "failed"
        if result["status"] != "ok":
            result["error"] = "no frames were extracted"
    except Exception as exc:
        result["error"] = str(exc)
    return result

videos = request.get("videos") or []
with concurrent.futures.ThreadPoolExecutor(max_workers=workers) as executor:
    results = list(executor.map(process_video, videos))

manifest = {"version": 1, "videos": results}
with open(os.path.join(out_dir, "manifest"#;

/// What follows the name of the file with the results, from the end of that name on.
pub const SCRIPT_TAIL: &'static str = r#".json"), "w", encoding="utf-8") as f:
    json.dump(manifest, f, ensure_ascii=False)
DVS_PY
python3 "$tmp/worker.py" "$tmp/request.json" "$tmp/out" &
worker_pid="$!"
wait "$worker_pid"
worker_pid=""
tar -czf - -C "$tmp/out" .
"#;

/// The script that serves a request.
pub fn remote_script(request_json: &str) -> (r: String)
    ensures
        r@ == SCRIPT_HEAD@ + request_json@ + SCRIPT_BODY@ + SCRIPT_TAIL@,
{
    crate::text::cat4(SCRIPT_HEAD, request_json, SCRIPT_BODY, SCRIPT_TAIL)
}

} // verus!
