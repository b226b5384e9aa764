//! The texts that tell why videos were put together.
use crate::matching;
use crate::matching::PairFinding;
use crate::models;
use crate::models::{MatchGroup, MatchItem, VideoRecord};
use crate::text;
use crate::text::{add_line, cat, cat3, cat4, decimal_text, join_lines};
use vstd::prelude::*;
use vstd::string::*;

verus! {

/// A text as it is shown between quotation marks, with what cannot stand there escaped.
pub uninterp spec fn quoted(text: Seq<char>) -> Seq<char>;

/// Calls the `Debug` formatting of `str` through `format!`, which puts a text between quotation
/// marks and escapes what cannot stand there. What it gives is a function of the text alone.
#[verifier::external_body]
fn quote(value: &str) -> (r: String)
    ensures
        r@ == quoted(value@),
{
    format!("{:?}", value)
}

/// The numbers of a finding as they are shown: the average distance of the samples, the shorter
/// length and the common part of the titles in percent.
#[derive(Debug, Clone)]
pub struct FindingTexts {
    pub average_distance: String,
    pub length_percent: String,
    pub title_percent: String,
}

/// What is told of a number of frames.
pub open spec fn count_told(head: Seq<char>, n: int) -> Seq<char> {
    head + text::decimal(n as nat) + " 个"@
}

/// What speaks for a finding. `allowed` frames may stay without a match.
pub open spec fn evidence_of(finding: PairFinding, allowed: int, texts: FindingTexts) -> Seq<
    Seq<char>,
> {
    let distance = "抽样帧平均汉明距离 "@ + texts.average_distance@;
    let overlap = "时长重合比例 "@ + texts.length_percent@ + "%"@;
    let ratio = "时长比例 "@ + texts.length_percent@ + "%"@;
    match finding {
        PairFinding::Exact => seq!["分段文件哈希一致"@, "时长和大小一致"@],
        PairFinding::Transcode { .. } => seq![distance, overlap],
        PairFinding::OffsetSamples { close_points, .. } => seq![
            count_told("对齐抽样近似点 "@, close_points as int),
            distance,
            overlap,
        ],
        PairFinding::Clip { close_points, .. } => seq![
            count_told("有序相似帧 "@, close_points as int),
            count_told("允许未匹配帧 "@, matching::within(allowed, 0, 20)),
            ratio,
        ],
        PairFinding::TitledClip { close_points, .. } => seq![
            count_told("有序相似帧 "@, close_points as int),
            "标题关键词重合 "@ + texts.title_percent@ + "%"@,
            ratio,
        ],
    }
}

fn tell_count(head: &str, n: usize) -> (r: String)
    ensures
        r@ == count_told(head@, n as int),
{
    cat3(head, decimal_text(n as u64).as_str(), " 个")
}

/// What speaks for a finding.
pub fn finding_evidence(finding: &PairFinding, allowed: usize, texts: &FindingTexts) -> (r: Vec<
    String,
>)
    ensures
        models::texts(r@) == evidence_of(*finding, allowed as int, *texts),
{
    let distance = cat("抽样帧平均汉明距离 ", texts.average_distance.as_str());
    let overlap = cat3("时长重合比例 ", texts.length_percent.as_str(), "%");
    let ratio = cat3("时长比例 ", texts.length_percent.as_str(), "%");
    let mut out: Vec<String> = Vec::new();
    match finding {
        PairFinding::Exact => {
            add_line(&mut out, "分段文件哈希一致".to_owned());
            add_line(&mut out, "时长和大小一致".to_owned());
        },
        PairFinding::Transcode { .. } => {
            add_line(&mut out, distance);
            add_line(&mut out, overlap);
        },
        PairFinding::OffsetSamples { close_points, .. } => {
            add_line(&mut out, tell_count("对齐抽样近似点 ", *close_points));
            add_line(&mut out, distance);
            add_line(&mut out, overlap);
        },
        PairFinding::Clip { close_points, .. } => {
            add_line(&mut out, tell_count("有序相似帧 ", *close_points));
            let shown: usize = if allowed > 20 {
                20
            } else {
                allowed
            };
            add_line(&mut out, tell_count("允许未匹配帧 ", shown));
            add_line(&mut out, ratio);
        },
        PairFinding::TitledClip { close_points, .. } => {
            add_line(&mut out, tell_count("有序相似帧 ", *close_points));
            add_line(&mut out, cat3("标题关键词重合 ", texts.title_percent.as_str(), "%"));
            add_line(&mut out, ratio);
        },
    }
    assert(models::texts(out@) =~= evidence_of(*finding, allowed as int, *texts));
    out
}

/// The figures of a video as they are shown: its length, its size and its bit rate.
#[derive(Debug, Clone)]
pub struct VideoTexts {
    pub length: String,
    pub size: String,
    pub bit_rate: String,
}

/// A side of the picture, 0 where it is not known.
pub open spec fn side(value: Option<u32>) -> Seq<char> {
    text::decimal(
        match value {
            Some(n) => n as nat,
            None => 0,
        },
    )
}

fn tell_side(value: Option<u32>) -> (r: String)
    ensures
        r@ == side(value),
{
    match value {
        Some(n) => decimal_text(n as u64),
        None => decimal_text(0),
    }
}

/// What is told of the properties of a video. `unknown` stands for a missing codec.
pub open spec fn properties(video: VideoRecord, shown: VideoTexts, unknown: Seq<char>) -> Seq<
    char,
> {
    "  规格: "@ + side(video.width) + "x"@ + side(video.height) + ", "@ + quoted(
        match video.codec {
            Some(codec) => codec@,
            None => unknown,
        },
    ) + ", "@ + shown.length@ + ", "@ + shown.size@ + ", "@ + shown.bit_rate@
}

fn tell_properties(video: &VideoRecord, shown: &VideoTexts, unknown: &str) -> (r: String)
    ensures
        r@ == properties(*video, *shown, unknown@),
{
    let codec = match &video.codec {
        Some(codec) => quote(codec.as_str()),
        None => quote(unknown),
    };
    let sides = cat4(
        "  规格: ",
        tell_side(video.width).as_str(),
        "x",
        tell_side(video.height).as_str(),
    );
    let figures = cat4(
        ", ",
        shown.length.as_str(),
        ", ",
        cat3(shown.size.as_str(), ", ", shown.bit_rate.as_str()).as_str(),
    );
    let r = cat4(sides.as_str(), ", ", codec.as_str(), figures.as_str());
    assert(r@ =~= properties(*video, *shown, unknown@));
    r
}

/// What is told of the first `n` videos of a group: two lines of each.
pub open spec fn item_lines(
    items: Seq<MatchItem>,
    shown: Seq<VideoTexts>,
    unknown: Seq<char>,
    n: int,
) -> Seq<Seq<char>>
    decreases n,
{
    if n <= 0 {
        Seq::empty()
    } else {
        let item = items[n - 1];
        item_lines(items, shown, unknown, n - 1).push(
            "- "@ + item.role@ + ": "@ + item.video.path@,
        ).push(properties(item.video, shown[n - 1], unknown))
    }
}

/// The first `n` lines of a list, each marked as an entry.
pub open spec fn entries(list: Seq<Seq<char>>, n: int) -> Seq<Seq<char>>
    decreases n,
{
    if n <= 0 {
        Seq::empty()
    } else {
        entries(list, n - 1).push("- "@ + list[n - 1])
    }
}

/// The lines of the report on a group.
pub open spec fn report_lines(
    title: Seq<char>,
    group: MatchGroup,
    confidence_percent: Seq<char>,
    reclaimable: Seq<char>,
    shown: Seq<VideoTexts>,
    unknown: Seq<char>,
) -> Seq<Seq<char>> {
    let evidence = models::texts(group.evidence@);
    seq![
        title,
        "组别: "@ + group.id@,
        "类型: "@ + group.kind@,
        "置信度: "@ + confidence_percent + "%"@,
        "估算可释放: "@ + reclaimable,
        ""@,
        "文件:"@,
    ] + item_lines(group.items@, shown, unknown, group.items@.len() as int) + seq![
        ""@,
        "证据:"@,
    ] + entries(evidence, evidence.len() as int)
}

fn write_report(
    title: &str,
    group: &MatchGroup,
    confidence_percent: &str,
    reclaimable: &str,
    shown: &Vec<VideoTexts>,
    unknown: &str,
) -> (r: String)
    requires
        shown@.len() == group.items@.len(),
    ensures
        r@ == text::joined_lines(
            report_lines(title@, *group, confidence_percent@, reclaimable@, shown@, unknown@),
            "\n"@,
            report_lines(
                title@,
                *group,
                confidence_percent@,
                reclaimable@,
                shown@,
                unknown@,
            ).len() as int,
        ),
{
    let mut out: Vec<String> = Vec::new();
    assert(models::texts(out@) =~= Seq::empty());
    add_line(&mut out, title.to_owned());
    add_line(&mut out, cat("组别: ", group.id.as_str()));
    add_line(&mut out, cat("类型: ", group.kind.as_str()));
    add_line(&mut out, cat3("置信度: ", confidence_percent, "%"));
    add_line(&mut out, cat("估算可释放: ", reclaimable));
    add_line(&mut out, "".to_owned());
    add_line(&mut out, "文件:".to_owned());
    let ghost head = models::texts(out@);
    let mut i: usize = 0;
    assert(head + item_lines(group.items@, shown@, unknown@, 0) =~= head);
    while i < group.items.len()
        invariant
            i <= group.items@.len(),
            shown@.len() == group.items@.len(),
            models::texts(out@) == head + item_lines(group.items@, shown@, unknown@, i as int),
        decreases group.items@.len() - i,
    {
        let item = &group.items[i];
        let ghost before = item_lines(group.items@, shown@, unknown@, i as int);
        add_line(&mut out, cat4("- ", item.role.as_str(), ": ", item.video.path.as_str()));
        add_line(&mut out, tell_properties(&item.video, &shown[i], unknown));
        assert(models::texts(out@) =~= head + item_lines(
            group.items@,
            shown@,
            unknown@,
            i + 1,
        ));
        i += 1;
    }
    add_line(&mut out, "".to_owned());
    add_line(&mut out, "证据:".to_owned());
    let ghost start = models::texts(out@);
    let ghost evidence = models::texts(group.evidence@);
    let mut j: usize = 0;
    assert(start + entries(evidence, 0) =~= start);
    while j < group.evidence.len()
        invariant
            j <= group.evidence@.len(),
            evidence == models::texts(group.evidence@),
            models::texts(out@) == start + entries(evidence, j as int),
        decreases group.evidence@.len() - j,
    {
        assert(evidence[j as int] == group.evidence@[j as int]@);
        add_line(&mut out, cat("- ", group.evidence[j].as_str()));
        assert(models::texts(out@) =~= start + entries(evidence, j + 1));
        j += 1;
    }
    assert(models::texts(out@) =~= report_lines(
        title@,
        *group,
        confidence_percent@,
        reclaimable@,
        shown@,
        unknown@,
    ));
    join_lines(&out, "\n", out.len())
}

/// The report on a group.
pub open spec fn report(
    title: Seq<char>,
    group: MatchGroup,
    confidence_percent: Seq<char>,
    reclaimable: Seq<char>,
    shown: Seq<VideoTexts>,
    unknown: Seq<char>,
) -> Seq<char> {
    let lines = report_lines(title, group, confidence_percent, reclaimable, shown, unknown);
    text::joined_lines(lines, "\n"@, lines.len() as int)
}

/// The report on a group of videos that repeat one another.
pub fn build_report(
    group: &MatchGroup,
    confidence_percent: &str,
    reclaimable: &str,
    shown: &Vec<VideoTexts>,
) -> (r: String)
    requires
        shown@.len() == group.items@.len(),
    ensures
        r@ == report(
            "Duplicate Video Search 报告"@,
            *group,
            confidence_percent@,
            reclaimable@,
            shown@,
            "-"@,
        ),
{
    write_report(
        "Duplicate Video Search 报告",
        group,
        confidence_percent,
        reclaimable,
        shown,
        "-",
    )
}

/// The report on a group of videos that look alike.
pub fn ai_group_report(
    group: &MatchGroup,
    confidence_percent: &str,
    reclaimable: &str,
    shown: &Vec<VideoTexts>,
) -> (r: String)
    requires
        shown@.len() == group.items@.len(),
    ensures
        r@ == report(
            "Duplicate Video Search AI-only 报告"@,
            *group,
            confidence_percent@,
            reclaimable@,
            shown@,
            "unknown"@,
        ),
{
    write_report(
        "Duplicate Video Search AI-only 报告",
        group,
        confidence_percent,
        reclaimable,
        shown,
        "unknown",
    )
}

} // verus!
