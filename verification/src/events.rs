use crate::index::Id;
use crate::metadata::opt_text;
use vstd::prelude::*;
use vstd::string::StringExecFns;

verus! {

/// What an event reports, by kind of event.
#[derive(Debug)]
#[non_exhaustive]
pub enum EventLogVariant {
    /// Projects were registered.
    ProjectCreate(Vec<ProjectCreateLog>),
}

/// A notification for those who follow the ledger from outside.
#[derive(Debug)]
pub struct EventLog {
    /// The version of the notification format, such as `1.0.0`.
    pub version: String,
    /// The event and its data.
    pub event: EventLogVariant,
}

/// The registration of projects by one owner.
#[derive(Debug)]
pub struct ProjectCreateLog {
    pub owner_id: String,
    pub project_ids: Vec<String>,
    /// An optional message; the text has `null` in its place when absent.
    pub memo: Option<String>,
}

/// The mathematical value of a [`ProjectCreateLog`].
pub struct ProjectCreateLogView {
    pub owner_id: Id,
    pub project_ids: Seq<Id>,
    pub memo: Option<Id>,
}

/// The mathematical value of an [`EventLogVariant`].
pub enum EventLogVariantView {
    ProjectCreate(Seq<ProjectCreateLogView>),
}

/// The mathematical value of an [`EventLog`].
pub struct EventLogView {
    pub version: Id,
    pub event: EventLogVariantView,
}

impl View for ProjectCreateLog {
    type V = ProjectCreateLogView;

    open spec fn view(&self) -> ProjectCreateLogView {
        ProjectCreateLogView {
            owner_id: self.owner_id@,
            project_ids: self.project_ids.deep_view(),
            memo: opt_text(self.memo),
        }
    }
}

impl View for EventLogVariant {
    type V = EventLogVariantView;

    open spec fn view(&self) -> EventLogVariantView {
        match self {
            EventLogVariant::ProjectCreate(logs) => EventLogVariantView::ProjectCreate(
                Seq::new(logs.len() as nat, |i: int| logs[i]@),
            ),
        }
    }
}

impl View for EventLog {
    type V = EventLogView;

    open spec fn view(&self) -> EventLogView {
        EventLogView { version: self.version@, event: self.event@ }
    }
}

/// The notification of the registration of `project_id` for `owner_id`.
pub open spec fn project_create_event(owner_id: Id, project_id: Id) -> EventLogView {
    EventLogView {
        version: "1.0.0"@,
        event: EventLogVariantView::ProjectCreate(
            seq![ProjectCreateLogView { owner_id, project_ids: seq![project_id], memo: None }],
        ),
    }
}

/// The digit of `n` to base sixteen, in lower case.
pub open spec fn hex_digit(n: int) -> char {
    seq!['0', '1', '2', '3', '4', '5', '6', '7', '8', '9', 'a', 'b', 'c', 'd', 'e', 'f'][n]
}

/// What stands for one character inside a JSON string: a backslash and a
/// letter for the quote, the backslash and five control characters, `\u00`
/// and two digits for the other characters below the space, and the
/// character itself otherwise.
pub open spec fn json_escape(c: char) -> Seq<char> {
    if c == '"' {
        seq!['\\', '"']
    } else if c == '\\' {
        seq!['\\', '\\']
    } else if c == '\u{08}' {
        seq!['\\', 'b']
    } else if c == '\t' {
        seq!['\\', 't']
    } else if c == '\n' {
        seq!['\\', 'n']
    } else if c == '\u{0c}' {
        seq!['\\', 'f']
    } else if c == '\r' {
        seq!['\\', 'r']
    } else if (c as u32) < 0x20 {
        seq!['\\', 'u', '0', '0', hex_digit((c as u32) as int / 16), hex_digit((c as u32) as int % 16)]
    } else {
        seq![c]
    }
}

/// The characters of `s`, each as it stands inside a JSON string.
pub open spec fn json_escaped(s: Seq<char>) -> Seq<char>
    decreases s.len(),
{
    if s.len() == 0 {
        Seq::empty()
    } else {
        json_escaped(s.drop_last()) + json_escape(s.last())
    }
}

/// The text of a string as a JSON value: the string in double quotes, with
/// whatever JSON does not take as it stands escaped.
pub open spec fn json_string(s: Seq<char>) -> Seq<char> {
    seq!['"'] + json_escaped(s) + seq!['"']
}

/// Writes `s` as a JSON string with `serde_json::to_string`, as `near_sdk`
/// hands it on.
///
/// Nothing here is proved. The contract claims that the text that comes back
/// is `json_string` of `s`, which is how `serde_json` writes a string: a
/// quote, each character by its escape table, a quote. It also claims that
/// the call succeeds: `serde_json` fails where a value's own serialisation
/// fails or a map has a key that is no string, neither of which a string can
/// do, and it writes to memory.
#[verifier::external_body]
fn json_quote(s: &str) -> (r: Option<String>)
    ensures
        r is Some,
        r->Some_0@ == json_string(s@),
{
    near_sdk::serde_json::to_string(s).ok()
}

/// The parts, with a comma between each two of them.
pub open spec fn comma_joined(parts: Seq<Seq<char>>) -> Seq<char>
    decreases parts.len(),
{
    if parts.len() == 0 {
        Seq::empty()
    } else if parts.len() == 1 {
        parts[0]
    } else {
        comma_joined(parts.drop_last()) + ","@ + parts.last()
    }
}

/// The member that carries an optional memo, given the memo's JSON text:
/// `null` stands where there is none.
pub open spec fn memo_frame(memo: Option<Seq<char>>) -> Seq<char> {
    ",\"memo\":"@ + match memo {
        Some(m) => m,
        None => "null"@,
    }
}

/// The JSON object of one registration, given the JSON texts of its fields.
pub open spec fn create_log_frame(
    owner_id: Seq<char>,
    project_ids: Seq<Seq<char>>,
    memo: Option<Seq<char>>,
) -> Seq<char> {
    "{\"owner_id\":"@ + owner_id + ",\"project_ids\":["@ + comma_joined(project_ids) + "]"@
        + memo_frame(memo) + "}"@
}

/// The text of a registration event, given the JSON texts of its version and
/// of its registrations: the marker, then the envelope.
pub open spec fn project_create_frame(version: Seq<char>, data: Seq<Seq<char>>) -> Seq<char> {
    "EVENT_JSON:"@ + "{\"version\":"@ + version + ",\"event\":\"project_create\",\"data\":["@
        + comma_joined(data) + "]}"@
}

/// The JSON text of an optional string.
pub open spec fn opt_json_string(s: Option<Seq<char>>) -> Option<Seq<char>> {
    match s {
        Some(t) => Some(json_string(t)),
        None => None,
    }
}

/// The JSON object of one registration.
pub open spec fn create_log_text(log: ProjectCreateLogView) -> Seq<char> {
    create_log_frame(
        json_string(log.owner_id),
        log.project_ids.map_values(|id: Seq<char>| json_string(id)),
        opt_json_string(log.memo),
    )
}

/// The text of an event, as it is written to the log.
pub open spec fn event_text(event: EventLogView) -> Seq<char> {
    match event.event {
        EventLogVariantView::ProjectCreate(logs) => project_create_frame(
            json_string(event.version),
            logs.map_values(|log: ProjectCreateLogView| create_log_text(log)),
        ),
    }
}

/// Joins `parts` with commas.
pub fn join_with_commas(parts: &Vec<String>) -> (r: String)
    ensures
        r@ == comma_joined(parts.deep_view()),
{
    let mut out = String::new();
    let mut i: usize = 0;
    while i < parts.len()
        invariant
            i <= parts.len(),
            out@ == comma_joined(parts.deep_view().take(i as int)),
        decreases parts.len() - i,
    {
        if i > 0 {
            out.append(",");
        }
        out.append(parts[i].as_str());
        proof {
            let next = parts.deep_view().take(i + 1);
            assert(next.drop_last() =~= parts.deep_view().take(i as int));
            assert(next.last() == parts[i as int]@);
            if i == 0 {
                assert(out@ =~= parts[0]@);
            }
        }
        i += 1;
    }
    assert(parts.deep_view().take(parts.len() as int) =~= parts.deep_view());
    out
}

/// Writes the JSON object of one registration from the JSON texts of its fields.
pub fn frame_create_log(owner_id: &str, project_ids: &Vec<String>, memo: &Option<String>) -> (r:
    String)
    ensures
        r@ == create_log_frame(owner_id@, project_ids.deep_view(), opt_text(*memo)),
{
    let mut out = String::from_str("{\"owner_id\":");
    out.append(owner_id);
    out.append(",\"project_ids\":[");
    let ids = join_with_commas(project_ids);
    out.append(ids.as_str());
    out.append("]");
    out.append(",\"memo\":");
    match memo {
        Some(m) => {
            out.append(m.as_str());
        },
        None => {
            out.append("null");
        },
    }
    out.append("}");
    assert(out@ =~= create_log_frame(owner_id@, project_ids.deep_view(), opt_text(*memo)));
    out
}

/// Writes the text of a registration event from the JSON texts of its version
/// and of its registrations.
pub fn frame_project_create(version: &str, data: &Vec<String>) -> (r: String)
    ensures
        r@ == project_create_frame(version@, data.deep_view()),
{
    let mut out = String::from_str("EVENT_JSON:");
    out.append("{\"version\":");
    out.append(version);
    out.append(",\"event\":\"project_create\",\"data\":[");
    let logs = join_with_commas(data);
    out.append(logs.as_str());
    out.append("]}");
    assert(out@ =~= project_create_frame(version@, data.deep_view()));
    out
}

impl ProjectCreateLog {
    /// The JSON object of this registration.
    pub fn to_json(&self) -> (r: String)
        ensures
            r@ == create_log_text(self@),
    {
        let owner_id = json_quote(self.owner_id.as_str()).unwrap();
        let mut ids: Vec<String> = Vec::new();
        let mut i: usize = 0;
        while i < self.project_ids.len()
            invariant
                i <= self.project_ids.len(),
                ids.len() == i,
                forall|j: int| 0 <= j < i ==> ids[j]@ == json_string(self.project_ids[j]@),
            decreases self.project_ids.len() - i,
        {
            ids.push(json_quote(self.project_ids[i].as_str()).unwrap());
            i += 1;
        }
        let memo = match &self.memo {
            Some(m) => Some(json_quote(m.as_str()).unwrap()),
            None => None,
        };
        assert(ids.deep_view() =~= self@.project_ids.map_values(|id: Seq<char>| json_string(id)));
        frame_create_log(owner_id.as_str(), &ids, &memo)
    }
}

impl EventLog {
    /// The notification of the registration of `project_id` for `owner_id`.
    pub fn project_create(owner_id: &String, project_id: &String) -> (r: EventLog)
        ensures
            r@ == project_create_event(owner_id@, project_id@),
    {
        let mut project_ids: Vec<String> = Vec::new();
        project_ids.push(project_id.clone());
        assert(project_ids.deep_view() =~= seq![project_id@]);
        let mut logs: Vec<ProjectCreateLog> = Vec::new();
        logs.push(ProjectCreateLog { owner_id: owner_id.clone(), project_ids, memo: None });
        let r = EventLog {
            version: String::from_str("1.0.0"),
            event: EventLogVariant::ProjectCreate(logs),
        };
        assert(r@.event->ProjectCreate_0 =~= project_create_event(
            owner_id@,
            project_id@,
        ).event->ProjectCreate_0);
        r
    }

    /// The text of the event, as it is written to the log: the marker
    /// `EVENT_JSON:` and the event as JSON.
    pub fn to_string(&self) -> (r: String)
        ensures
            r@ == event_text(self@),
    {
        let version = json_quote(self.version.as_str()).unwrap();
        match &self.event {
            EventLogVariant::ProjectCreate(logs) => {
                let mut data: Vec<String> = Vec::new();
                let mut i: usize = 0;
                while i < logs.len()
                    invariant
                        i <= logs.len(),
                        data.len() == i,
                        forall|j: int| 0 <= j < i ==> data[j]@ == create_log_text(logs[j]@),
                    decreases logs.len() - i,
                {
                    data.push(logs[i].to_json());
                    i += 1;
                }
                assert(data.deep_view() =~= self@.event->ProjectCreate_0.map_values(
                    |log: ProjectCreateLogView| create_log_text(log),
                ));
                frame_project_create(version.as_str(), &data)
            },
        }
    }
}

} // verus!
