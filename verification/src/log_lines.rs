//! The lines of the log of operations: one JSON object each, with an entry of the log.
use crate::models;
use crate::operations::LogEntry;
use crate::text;
use crate::text::is_blank;
use vstd::prelude::*;
use vstd::string::*;

verus! {

/// What stands under a key of a line.
#[derive(Debug, Clone)]
pub enum LineField {
    Null,
    Flag(bool),
    /// A number, with its value where it is a whole one that fits.
    Number(Option<i64>),
    Text(String),
    /// A list, with each item that is a text.
    List(Vec<Option<String>>),
    Object,
}

/// What a field of a line says.
#[verifier::ext_equal]
pub enum FieldData {
    Null,
    Flag(bool),
    Number(Option<i64>),
    Text(Seq<char>),
    List(Seq<Option<Seq<char>>>),
    Object,
}

/// The text of each optional string of a list.
pub open spec fn opt_texts(list: Seq<Option<String>>) -> Seq<Option<Seq<char>>> {
    list.map_values(|item: Option<String>| models::opt_text(item))
}

impl View for LineField {
    type V = FieldData;

    open spec fn view(&self) -> FieldData {
        match *self {
            LineField::Null => FieldData::Null,
            LineField::Flag(flag) => FieldData::Flag(flag),
            LineField::Number(number) => FieldData::Number(number),
            LineField::Text(text) => FieldData::Text(text@),
            LineField::List(items) => FieldData::List(opt_texts(items@)),
            LineField::Object => FieldData::Object,
        }
    }
}

/// What an optional field says.
pub open spec fn field_data(field: Option<LineField>) -> Option<FieldData> {
    match field {
        Some(own) => Some(own@),
        None => None,
    }
}

/// What `serde_json::from_str` and `serde_json::Value::get` find in a text under a key.
pub uninterp spec fn line_field(line: Seq<char>, key: Seq<char>) -> Option<FieldData>;

/// Whether `serde_json::from_str` reads a text as a JSON value.
pub uninterp spec fn line_parses(line: Seq<char>) -> bool;

/// `serde_json::from_str` reads the line as a JSON value, and `serde_json::Value::get` gives what
/// stands under the key of an object; there is nothing where the line is no JSON value, or no
/// object, or has not the key. The field depends on the line and the key alone.
#[verifier::external_body]
fn read_line_field(line: &str, key: &str) -> (r: Option<LineField>)
    ensures
        field_data(r) == line_field(line@, key@),
        r is Some ==> line_parses(line@),
{
    let value = serde_json::from_str::<serde_json::Value>(line).ok()?;
    Some(match value.get(key)? {
        serde_json::Value::Null => LineField::Null,
        serde_json::Value::Bool(flag) => LineField::Flag(*flag),
        serde_json::Value::Number(number) => LineField::Number(number.as_i64()),
        serde_json::Value::String(text) => LineField::Text(text.clone()),
        serde_json::Value::Array(items) => LineField::List(
            items.iter().map(|item| item.as_str().map(str::to_string)).collect(),
        ),
        serde_json::Value::Object(_) => LineField::Object,
    })
}

/// `serde_json::from_str` reads some texts as JSON values and fails on the others; which, depends
/// on the text alone.
#[verifier::external_body]
fn parses_line(line: &str) -> (r: bool)
    ensures
        r == line_parses(line@),
{
    serde_json::from_str::<serde_json::Value>(line).is_ok()
}

/// The fields of a line that an entry is read from.
#[derive(Debug, Clone)]
pub struct LineFields {
    pub operation_id: Option<LineField>,
    pub rollback_of: Option<LineField>,
    pub action: Option<LineField>,
    pub plan_id: Option<LineField>,
    pub messages: Option<LineField>,
    pub moves: Option<LineField>,
    pub reversible: Option<LineField>,
    pub summary: Option<LineField>,
    pub created_at_unix_ms: Option<LineField>,
}

/// What the fields of a line say.
#[verifier::ext_equal]
pub struct LineData {
    pub operation_id: Option<FieldData>,
    pub rollback_of: Option<FieldData>,
    pub action: Option<FieldData>,
    pub plan_id: Option<FieldData>,
    pub messages: Option<FieldData>,
    pub moves: Option<FieldData>,
    pub reversible: Option<FieldData>,
    pub summary: Option<FieldData>,
    pub created_at_unix_ms: Option<FieldData>,
}

impl View for LineFields {
    type V = LineData;

    open spec fn view(&self) -> LineData {
        LineData {
            operation_id: field_data(self.operation_id),
            rollback_of: field_data(self.rollback_of),
            action: field_data(self.action),
            plan_id: field_data(self.plan_id),
            messages: field_data(self.messages),
            moves: field_data(self.moves),
            reversible: field_data(self.reversible),
            summary: field_data(self.summary),
            created_at_unix_ms: field_data(self.created_at_unix_ms),
        }
    }
}

/// What a line says under the keys of an entry.
pub open spec fn line_data(line: Seq<char>) -> LineData {
    LineData {
        operation_id: line_field(line, "operationId"@),
        rollback_of: line_field(line, "rollbackOf"@),
        action: line_field(line, "action"@),
        plan_id: line_field(line, "planId"@),
        messages: line_field(line, "messages"@),
        moves: line_field(line, "moves"@),
        reversible: line_field(line, "reversible"@),
        summary: line_field(line, "summary"@),
        created_at_unix_ms: line_field(line, "createdAtUnixMs"@),
    }
}

/// The text that a field holds, if it holds one.
pub open spec fn text_in(field: Option<FieldData>) -> Option<Seq<char>> {
    match field {
        Some(FieldData::Text(text)) => Some(text),
        _ => None,
    }
}

/// The items that are texts, of the first `n` of a list.
pub open spec fn texts_among(items: Seq<Option<Seq<char>>>, n: int) -> Seq<Seq<char>>
    decreases n,
{
    if n <= 0 {
        Seq::empty()
    } else {
        match items[n - 1] {
            Some(text) => texts_among(items, n - 1).push(text),
            None => texts_among(items, n - 1),
        }
    }
}

/// The texts of the list that a field holds; none where it holds no list.
pub open spec fn texts_in(field: Option<FieldData>) -> Seq<Seq<char>> {
    match field {
        Some(FieldData::List(items)) => texts_among(items, items.len() as int),
        _ => Seq::empty(),
    }
}

/// Whether an entry is the one that the fields of a line give.
pub open spec fn is_read_from(entry: LogEntry, data: LineData) -> bool {
    &&& models::opt_text(entry.operation_id) == text_in(data.operation_id)
    &&& entry.is_rollback == (data.rollback_of is Some)
    &&& models::opt_text(entry.rollback_of) == text_in(data.rollback_of)
    &&& models::opt_text(entry.action) == text_in(data.action)
    &&& entry.has_plan == (data.plan_id is Some)
    &&& models::texts(entry.messages@) == texts_in(data.messages)
    &&& match data.moves {
        Some(FieldData::List(items)) => entry.moves == Some(items.len() as usize)
            && !entry.moves_unreadable,
        other => entry.moves is None && entry.moves_unreadable == (other is Some),
    }
    &&& entry.reversible == (data.reversible == Some(FieldData::Flag(true)))
    &&& models::opt_text(entry.summary) == text_in(data.summary)
    &&& entry.created_at_unix_ms == match data.created_at_unix_ms {
        Some(FieldData::Number(Some(time))) => time,
        _ => 0,
    }
}

/// The text that a field holds, if it holds one.
fn take_text(field: Option<LineField>) -> (r: Option<String>)
    ensures
        models::opt_text(r) == text_in(field_data(field)),
{
    match field {
        Some(LineField::Text(text)) => Some(text),
        _ => None,
    }
}

/// The texts of the list that a field holds.
fn take_texts(field: Option<LineField>) -> (r: Vec<String>)
    ensures
        models::texts(r@) == texts_in(field_data(field)),
{
    let mut out: Vec<String> = Vec::new();
    assert(models::texts(out@) =~= Seq::<Seq<char>>::empty());
    if let Some(LineField::List(items)) = field {
        let ghost all = opt_texts(items@);
        let mut i: usize = 0;
        while i < items.len()
            invariant
                i <= items@.len(),
                all == opt_texts(items@),
                models::texts(out@) == texts_among(all, i as int),
            decreases items@.len() - i,
        {
            assert(all[i as int] == models::opt_text(items@[i as int]));
            if let Some(item) = &items[i] {
                let ghost before = out@;
                out.push(item.clone());
                assert(models::texts(out@) =~= models::texts(before).push(item@));
            }
            i += 1;
        }
    }
    out
}

/// The entry that the fields of a line give. Fields that are missing or of another kind count as
/// not recorded, but a rollback or a plan is one whatever its field holds.
pub fn entry_of_fields(fields: LineFields) -> (r: LogEntry)
    ensures
        is_read_from(r, fields@),
{
    let is_rollback = fields.rollback_of.is_some();
    let has_plan = fields.plan_id.is_some();
    let (moves, moves_unreadable) = match &fields.moves {
        Some(LineField::List(items)) => (Some(items.len()), false),
        Some(_) => (None, true),
        None => (None, false),
    };
    let reversible = match fields.reversible {
        Some(LineField::Flag(flag)) => flag,
        _ => false,
    };
    let created_at_unix_ms: i64 = match fields.created_at_unix_ms {
        Some(LineField::Number(Some(time))) => time,
        _ => 0,
    };
    LogEntry {
        operation_id: take_text(fields.operation_id),
        is_rollback,
        rollback_of: take_text(fields.rollback_of),
        action: take_text(fields.action),
        has_plan,
        messages: take_texts(fields.messages),
        moves,
        moves_unreadable,
        reversible,
        summary: take_text(fields.summary),
        created_at_unix_ms,
    }
}

/// The fields of a line.
fn read_fields(line: &str) -> (r: LineFields)
    ensures
        r@ == line_data(line@),
{
    LineFields {
        operation_id: read_line_field(line, "operationId"),
        rollback_of: read_line_field(line, "rollbackOf"),
        action: read_line_field(line, "action"),
        plan_id: read_line_field(line, "planId"),
        messages: read_line_field(line, "messages"),
        moves: read_line_field(line, "moves"),
        reversible: read_line_field(line, "reversible"),
        summary: read_line_field(line, "summary"),
        created_at_unix_ms: read_line_field(line, "createdAtUnixMs"),
    }
}

/// Whether a line holds an entry: it is not blank, and is a JSON value.
pub open spec fn holds_entry(line: Seq<char>) -> bool {
    text::trimmed(line).len() > 0 && line_parses(line)
}

/// The positions, among the first `n` lines, of those that hold an entry.
pub open spec fn entry_positions(lines: Seq<Seq<char>>, n: int) -> Seq<usize>
    decreases n,
{
    if n <= 0 {
        Seq::empty()
    } else if holds_entry(lines[n - 1]) {
        entry_positions(lines, n - 1).push((n - 1) as usize)
    } else {
        entry_positions(lines, n - 1)
    }
}

/// The positions of the lines that hold an entry.
pub fn entry_lines(lines: &Vec<String>) -> (r: Vec<usize>)
    ensures
        r@ == entry_positions(models::texts(lines@), lines@.len() as int),
        forall|k: int| 0 <= k < r@.len() ==> (#[trigger] r@[k]) < lines@.len(),
{
    let mut out: Vec<usize> = Vec::new();
    let mut i: usize = 0;
    while i < lines.len()
        invariant
            i <= lines@.len(),
            out@ == entry_positions(models::texts(lines@), i as int),
            forall|k: int| 0 <= k < out@.len() ==> (#[trigger] out@[k]) < i,
        decreases lines@.len() - i,
    {
        assert(models::texts(lines@)[i as int] == lines@[i as int]@);
        if !is_blank(lines[i].as_str()) && parses_line(lines[i].as_str()) {
            out.push(i);
        }
        i += 1;
    }
    out
}

/// The entries of the log, out of its lines: those of the lines that are not blank and are JSON
/// values, in order.
pub fn read_operation_log(lines: &Vec<String>) -> (r: Vec<LogEntry>)
    ensures
        ({
            let all = models::texts(lines@);
            let kept = entry_positions(all, lines@.len() as int);
            &&& r@.len() == kept.len()
            &&& forall|k: int|
                0 <= k < r@.len() ==> is_read_from(#[trigger] r@[k], line_data(all[kept[k] as int]))
        }),
{
    let kept = entry_lines(lines);
    let ghost all = models::texts(lines@);
    let mut out: Vec<LogEntry> = Vec::new();
    let mut i: usize = 0;
    while i < kept.len()
        invariant
            i <= kept@.len(),
            all == models::texts(lines@),
            forall|k: int| 0 <= k < kept@.len() ==> (#[trigger] kept@[k]) < lines@.len(),
            out@.len() == i,
            forall|k: int|
                0 <= k < i ==> is_read_from(#[trigger] out@[k], line_data(all[kept@[k] as int])),
        decreases kept@.len() - i,
    {
        let at: usize = kept[i];
        assert(all[at as int] == lines@[at as int]@);
        let fields = read_fields(lines[at].as_str());
        out.push(entry_of_fields(fields));
        i += 1;
    }
    out
}

/// A field with its key, where there is a text to write.
pub open spec fn written_text(key: Seq<char>, text: Option<Seq<char>>) -> Seq<
    (Seq<char>, FieldData),
> {
    match text {
        Some(own) => seq![(key, FieldData::Text(own))],
        None => Seq::empty(),
    }
}

/// The fields under which an entry is written, each with its key. Each move is written as an object
/// of its own, which counts here as an item that is no text.
pub open spec fn written(entry: LogEntry) -> Seq<(Seq<char>, FieldData)> {
    let texts = models::texts(entry.messages@);
    written_text("operationId"@, models::opt_text(entry.operation_id)) + written_text(
        "action"@,
        models::opt_text(entry.action),
    ) + written_text("rollbackOf"@, models::opt_text(entry.rollback_of)) + written_text(
        "summary"@,
        models::opt_text(entry.summary),
    ) + seq![
        (
            "messages"@,
            FieldData::List(texts.map_values(|text: Seq<char>| Some(text))),
        ),
    ] + (match entry.moves {
        Some(n) => seq![
            ("moves"@, FieldData::List(Seq::new(n as nat, |i: int| None::<Seq<char>>))),
        ],
        None => Seq::empty(),
    }) + seq![
        ("reversible"@, FieldData::Flag(entry.reversible)),
        ("createdAtUnixMs"@, FieldData::Number(Some(entry.created_at_unix_ms))),
    ]
}

/// Fields with their keys.
pub open spec fn keyed(fields: Seq<(String, LineField)>) -> Seq<(Seq<char>, FieldData)> {
    fields.map_values(|field: (String, LineField)| (field.0@, field.1@))
}

fn add_field(fields: &mut Vec<(String, LineField)>, key: &str, field: LineField)
    ensures
        keyed(final(fields)@) == keyed(old(fields)@) + seq![(key@, field@)],
{
    let ghost before = fields@;
    fields.push((key.to_owned(), field));
    assert(keyed(fields@) =~= keyed(before) + seq![(key@, field@)]);
}

fn add_text(fields: &mut Vec<(String, LineField)>, key: &str, text: &Option<String>)
    ensures
        keyed(final(fields)@) == keyed(old(fields)@) + written_text(key@, models::opt_text(*text)),
{
    match text {
        Some(own) => add_field(fields, key, LineField::Text(own.clone())),
        None => {
            assert(keyed(fields@) =~= keyed(fields@) + Seq::empty());
        },
    }
}

/// The fields under which an entry is written, each with its key. For each move stands an item that
/// is no text.
pub fn written_fields(entry: &LogEntry) -> (r: Vec<(String, LineField)>)
    ensures
        keyed(r@) == written(*entry),
{
    let mut out: Vec<(String, LineField)> = Vec::new();
    assert(keyed(out@) =~= Seq::empty());
    add_text(&mut out, "operationId", &entry.operation_id);
    add_text(&mut out, "action", &entry.action);
    add_text(&mut out, "rollbackOf", &entry.rollback_of);
    add_text(&mut out, "summary", &entry.summary);
    let mut messages: Vec<Option<String>> = Vec::new();
    let mut i: usize = 0;
    while i < entry.messages.len()
        invariant
            i <= entry.messages@.len(),
            messages@.len() == i,
            forall|k: int|
                0 <= k < i ==> models::opt_text(#[trigger] messages@[k]) == Some(
                    entry.messages@[k]@,
                ),
        decreases entry.messages@.len() - i,
    {
        messages.push(Some(entry.messages[i].clone()));
        i += 1;
    }
    assert(opt_texts(messages@) =~= models::texts(entry.messages@).map_values(
        |text: Seq<char>| Some(text),
    ));
    add_field(&mut out, "messages", LineField::List(messages));
    if let Some(n) = entry.moves {
        let mut moves: Vec<Option<String>> = Vec::new();
        let mut i: usize = 0;
        while i < n
            invariant
                i <= n,
                moves@.len() == i,
                forall|k: int| 0 <= k < i ==> (#[trigger] moves@[k]) is None,
            decreases n - i,
        {
            moves.push(None);
            i += 1;
        }
        assert(opt_texts(moves@) =~= Seq::new(n as nat, |i: int| None::<Seq<char>>));
        add_field(&mut out, "moves", LineField::List(moves));
    }
    add_field(&mut out, "reversible", LineField::Flag(entry.reversible));
    add_field(&mut out, "createdAtUnixMs", LineField::Number(Some(entry.created_at_unix_ms)));
    assert(keyed(out@) =~= written(*entry));
    out
}

/// What stands under a key among some fields; the last one counts.
pub open spec fn found(fields: Seq<(Seq<char>, FieldData)>, key: Seq<char>) -> Option<FieldData>
    decreases fields.len(),
{
    if fields.len() == 0 {
        None
    } else if fields.last().0 == key {
        Some(fields.last().1)
    } else {
        found(fields.drop_last(), key)
    }
}

proof fn lemma_found(
    a: Seq<(Seq<char>, FieldData)>,
    b: Seq<(Seq<char>, FieldData)>,
    key: Seq<char>,
)
    ensures
        found(a + b, key) == (if found(b, key) is Some {
            found(b, key)
        } else {
            found(a, key)
        }),
    decreases b.len(),
{
    if b.len() == 0 {
        assert(a + b =~= a);
    } else {
        assert((a + b).last() == b.last());
        assert((a + b).drop_last() =~= a + b.drop_last());
        lemma_found(a, b.drop_last(), key);
    }
}

proof fn lemma_all_texts(texts: Seq<Seq<char>>, n: int)
    requires
        0 <= n <= texts.len(),
    ensures
        texts_among(texts.map_values(|text: Seq<char>| Some(text)), n) == texts.take(n),
    decreases n,
{
    if n > 0 {
        lemma_all_texts(texts, n - 1);
        assert(texts.take(n) =~= texts.take(n - 1).push(texts[n - 1]));
    } else {
        assert(texts.take(0) =~= Seq::empty());
    }
}

proof fn lemma_found_in_written(entry: LogEntry, key: Seq<char>)
    ensures
        found(written(entry), key) == (if key == "createdAtUnixMs"@ {
            Some(FieldData::Number(Some(entry.created_at_unix_ms)))
        } else if key == "reversible"@ {
            Some(FieldData::Flag(entry.reversible))
        } else if key == "moves"@ && entry.moves is Some {
            Some(FieldData::List(Seq::new(entry.moves->0 as nat, |i: int| None::<Seq<char>>)))
        } else if key == "messages"@ {
            Some(
                FieldData::List(
                    models::texts(entry.messages@).map_values(|text: Seq<char>| Some(text)),
                ),
            )
        } else if key == "summary"@ && entry.summary is Some {
            Some(FieldData::Text(entry.summary->0@))
        } else if key == "rollbackOf"@ && entry.rollback_of is Some {
            Some(FieldData::Text(entry.rollback_of->0@))
        } else if key == "action"@ && entry.action is Some {
            Some(FieldData::Text(entry.action->0@))
        } else if key == "operationId"@ && entry.operation_id is Some {
            Some(FieldData::Text(entry.operation_id->0@))
        } else {
            None
        }),
{
    reveal_with_fuel(found, 3);
    let texts = models::texts(entry.messages@);
    let id = written_text("operationId"@, models::opt_text(entry.operation_id));
    let action = written_text("action"@, models::opt_text(entry.action));
    let rollback = written_text("rollbackOf"@, models::opt_text(entry.rollback_of));
    let summary = written_text("summary"@, models::opt_text(entry.summary));
    let messages = seq![
        ("messages"@, FieldData::List(texts.map_values(|text: Seq<char>| Some(text)))),
    ];
    let moves = match entry.moves {
        Some(n) => seq![
            ("moves"@, FieldData::List(Seq::new(n as nat, |i: int| None::<Seq<char>>))),
        ],
        None => Seq::empty(),
    };
    let end = seq![
        ("reversible"@, FieldData::Flag(entry.reversible)),
        ("createdAtUnixMs"@, FieldData::Number(Some(entry.created_at_unix_ms))),
    ];
    lemma_found(id, action, key);
    lemma_found(id + action, rollback, key);
    lemma_found(id + action + rollback, summary, key);
    lemma_found(id + action + rollback + summary, messages, key);
    lemma_found(id + action + rollback + summary + messages, moves, key);
    lemma_found(id + action + rollback + summary + messages + moves, end, key);
    assert(end.drop_last() =~= seq![("reversible"@, FieldData::Flag(entry.reversible))]);
    assert(end.drop_last().drop_last() =~= Seq::empty());
}

proof fn lemma_keys_differ()
    ensures
        "operationId"@ != "rollbackOf"@,
        "operationId"@ != "action"@,
        "operationId"@ != "planId"@,
        "operationId"@ != "messages"@,
        "operationId"@ != "moves"@,
        "operationId"@ != "reversible"@,
        "operationId"@ != "summary"@,
        "operationId"@ != "createdAtUnixMs"@,
        "rollbackOf"@ != "action"@,
        "rollbackOf"@ != "planId"@,
        "rollbackOf"@ != "messages"@,
        "rollbackOf"@ != "moves"@,
        "rollbackOf"@ != "reversible"@,
        "rollbackOf"@ != "summary"@,
        "rollbackOf"@ != "createdAtUnixMs"@,
        "action"@ != "planId"@,
        "action"@ != "messages"@,
        "action"@ != "moves"@,
        "action"@ != "reversible"@,
        "action"@ != "summary"@,
        "action"@ != "createdAtUnixMs"@,
        "planId"@ != "messages"@,
        "planId"@ != "moves"@,
        "planId"@ != "reversible"@,
        "planId"@ != "summary"@,
        "planId"@ != "createdAtUnixMs"@,
        "messages"@ != "moves"@,
        "messages"@ != "reversible"@,
        "messages"@ != "summary"@,
        "messages"@ != "createdAtUnixMs"@,
        "moves"@ != "reversible"@,
        "moves"@ != "summary"@,
        "moves"@ != "createdAtUnixMs"@,
        "reversible"@ != "summary"@,
        "reversible"@ != "createdAtUnixMs"@,
        "summary"@ != "createdAtUnixMs"@,
{
    reveal_strlit("operationId");
    reveal_strlit("rollbackOf");
    reveal_strlit("action");
    reveal_strlit("planId");
    reveal_strlit("messages");
    reveal_strlit("moves");
    reveal_strlit("reversible");
    reveal_strlit("summary");
    reveal_strlit("createdAtUnixMs");
    assert("operationId"@.len() == 11);
    assert("rollbackOf"@.len() == 10);
    assert("action"@.len() == 6);
    assert("planId"@.len() == 6);
    assert("messages"@.len() == 8);
    assert("moves"@.len() == 5);
    assert("reversible"@.len() == 10);
    assert("summary"@.len() == 7);
    assert("createdAtUnixMs"@.len() == 15);
    assert("rollbackOf"@[1] != "reversible"@[1]);
    assert("action"@[0] != "planId"@[0]);
}

/// Whether two entries say the same.
pub open spec fn same_entry(a: LogEntry, b: LogEntry) -> bool {
    &&& models::opt_text(a.operation_id) == models::opt_text(b.operation_id)
    &&& a.is_rollback == b.is_rollback
    &&& models::opt_text(a.rollback_of) == models::opt_text(b.rollback_of)
    &&& models::opt_text(a.action) == models::opt_text(b.action)
    &&& a.has_plan == b.has_plan
    &&& models::texts(a.messages@) == models::texts(b.messages@)
    &&& a.moves == b.moves
    &&& a.moves_unreadable == b.moves_unreadable
    &&& a.reversible == b.reversible
    &&& models::opt_text(a.summary) == models::opt_text(b.summary)
    &&& a.created_at_unix_ms == b.created_at_unix_ms
}

/// A line that holds the fields under which an entry is written, and no others, is read as that
/// entry.
pub proof fn law_written_entry_is_read_back(entry: LogEntry, read: LogEntry, line: Seq<char>)
    requires
        entry.is_rollback == (entry.rollback_of is Some),
        !entry.has_plan,
        !entry.moves_unreadable,
        forall|key: Seq<char>| #[trigger] line_field(line, key) == found(written(entry), key),
        is_read_from(read, line_data(line)),
    ensures
        same_entry(read, entry),
{
    lemma_keys_differ();
    lemma_found_in_written(entry, "operationId"@);
    lemma_found_in_written(entry, "rollbackOf"@);
    lemma_found_in_written(entry, "action"@);
    lemma_found_in_written(entry, "planId"@);
    lemma_found_in_written(entry, "messages"@);
    lemma_found_in_written(entry, "moves"@);
    lemma_found_in_written(entry, "reversible"@);
    lemma_found_in_written(entry, "summary"@);
    lemma_found_in_written(entry, "createdAtUnixMs"@);
    let texts = models::texts(entry.messages@);
    lemma_all_texts(texts, texts.len() as int);
    assert(texts.take(texts.len() as int) =~= texts);
}

} // verus!
