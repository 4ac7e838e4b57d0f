//! The task entity model: status enumeration, task record, request and
//! filter shapes, and their mathematical views.

use vstd::prelude::*;
use crate::strutil::contains_substring;
use crate::strutil::is_substring_of;
use crate::strutil::str_eq;

verus! {

/// The status a task can hold.
#[derive(Debug, Clone, Copy, PartialEq, Eq, Structural)]
pub enum EventStatus {
    Pending,
    InProgress,
    Completed,
    Blocked,
}

impl Default for EventStatus {
    fn default() -> (r: Self)
        ensures
            r == EventStatus::Pending,
    {
        EventStatus::Pending
    }
}

/// The persistence encoding of each status.
pub open spec fn spec_status_str(s: EventStatus) -> Seq<char> {
    match s {
        EventStatus::Pending => "pending"@,
        EventStatus::InProgress => "in_progress"@,
        EventStatus::Completed => "completed"@,
        EventStatus::Blocked => "blocked"@,
    }
}

/// The decoding applied to stored status strings. An unknown encoding falls
/// back to `Pending`, matching the store boundary's leniency toward
/// malformed rows.
pub open spec fn spec_status_parse(s: Seq<char>) -> EventStatus {
    if s == "pending"@ {
        EventStatus::Pending
    } else if s == "in_progress"@ {
        EventStatus::InProgress
    } else if s == "completed"@ {
        EventStatus::Completed
    } else if s == "blocked"@ {
        EventStatus::Blocked
    } else {
        EventStatus::Pending
    }
}

/// Encode a status for persistence.
pub fn status_to_str(s: EventStatus) -> (r: &'static str)
    ensures
        r@ == spec_status_str(s),
{
    match s {
        EventStatus::Pending => "pending",
        EventStatus::InProgress => "in_progress",
        EventStatus::Completed => "completed",
        EventStatus::Blocked => "blocked",
    }
}

/// Decode a stored status string; unknown encodings yield `Pending`.
pub fn status_from_str(s: &str) -> (r: EventStatus)
    ensures
        r == spec_status_parse(s@),
{
    if str_eq(s, "pending") {
        EventStatus::Pending
    } else if str_eq(s, "in_progress") {
        EventStatus::InProgress
    } else if str_eq(s, "completed") {
        EventStatus::Completed
    } else if str_eq(s, "blocked") {
        EventStatus::Blocked
    } else {
        EventStatus::Pending
    }
}

/// Every status encodes and decodes back to itself.
pub proof fn lemma_status_round_trip(s: EventStatus)
    ensures
        spec_status_parse(spec_status_str(s)) == s,
{
    reveal_strlit("pending");
    reveal_strlit("in_progress");
    reveal_strlit("completed");
    reveal_strlit("blocked");
    assert("pending"@.len() == 7);
    assert("in_progress"@.len() == 11);
    assert("completed"@.len() == 9);
    assert("blocked"@.len() == 7);
    assert("pending"@[0] == 'p');
    assert("blocked"@[0] == 'b');
}

/// Failures the store reports.
#[derive(Debug, Clone, Copy, PartialEq, Eq, Structural)]
pub enum StoreError {
    /// The requested task id is absent.
    NotFound,
    /// The id chosen for a new task is already taken.
    DuplicateId,
}

/// A task: a unit of work with free-text fields, string tags, a status, and
/// an ordered list of ids of the tasks it depends on. Dependency ids may be
/// duplicated or dangling; a dangling id counts as an unsatisfied dependency.
#[derive(Debug)]
pub struct TodoEvent {
    pub id: String,
    pub name: String,
    pub description: String,
    pub tags: Vec<(String, String)>,
    pub status: EventStatus,
    pub created_at: i64,
    pub updated_at: i64,
    pub dependencies: Vec<String>,
}

/// The mathematical view of a task.
#[verifier::ext_equal]
pub struct TaskView {
    pub id: Seq<char>,
    pub name: Seq<char>,
    pub description: Seq<char>,
    pub tags: Seq<(Seq<char>, Seq<char>)>,
    pub status: EventStatus,
    pub created_at: i64,
    pub updated_at: i64,
    pub dependencies: Seq<Seq<char>>,
}

impl View for TodoEvent {
    type V = TaskView;

    open spec fn view(&self) -> TaskView {
        TaskView {
            id: self.id@,
            name: self.name@,
            description: self.description@,
            tags: self.tags.deep_view(),
            status: self.status,
            created_at: self.created_at,
            updated_at: self.updated_at,
            dependencies: self.dependencies.deep_view(),
        }
    }
}

impl DeepView for TodoEvent {
    type V = TaskView;

    open spec fn deep_view(&self) -> TaskView {
        self.view()
    }
}

/// Tag keys are unique within one task's tag list.
pub open spec fn tag_keys_unique(tags: Seq<(Seq<char>, Seq<char>)>) -> bool {
    forall|i: int, j: int|
        0 <= i < j < tags.len() ==> (#[trigger] tags[i]).0 != (#[trigger] tags[j]).0
}

/// The value stored under `key` from position `from` onward, first match.
pub open spec fn tag_lookup_from(
    tags: Seq<(Seq<char>, Seq<char>)>,
    key: Seq<char>,
    from: int,
) -> Option<Seq<char>>
    decreases tags.len() - from,
{
    if from < 0 || from >= tags.len() {
        None
    } else if tags[from].0 == key {
        Some(tags[from].1)
    } else {
        tag_lookup_from(tags, key, from + 1)
    }
}

/// The value stored under `key`, if any.
pub open spec fn tag_lookup(tags: Seq<(Seq<char>, Seq<char>)>, key: Seq<char>) -> Option<
    Seq<char>,
> {
    tag_lookup_from(tags, key, 0)
}

/// Look a tag key up in a tag list, first match.
pub fn tags_get(tags: &Vec<(String, String)>, key: &str) -> (r: Option<String>)
    ensures
        match r {
            Some(v) => tag_lookup(tags.deep_view(), key@) == Some(v@),
            None => tag_lookup(tags.deep_view(), key@) is None,
        },
{
    let mut i: usize = 0;
    while i < tags.len()
        invariant
            i <= tags.len(),
            tag_lookup(tags.deep_view(), key@) == tag_lookup_from(tags.deep_view(), key@, i as int),
        decreases tags.len() - i,
    {
        if str_eq(tags[i].0.as_str(), key) {
            return Some(tags[i].1.clone());
        }
        i += 1;
    }
    None
}

/// What a client supplies to create a task: everything but the generated id,
/// the timestamps and the derived status.
#[derive(Debug)]
pub struct CreateEventRequest {
    pub name: String,
    pub description: String,
    pub tags: Vec<(String, String)>,
    pub dependencies: Vec<String>,
}

/// The mathematical view of a creation request.
#[verifier::ext_equal]
pub struct CreateView {
    pub name: Seq<char>,
    pub description: Seq<char>,
    pub tags: Seq<(Seq<char>, Seq<char>)>,
    pub dependencies: Seq<Seq<char>>,
}

impl View for CreateEventRequest {
    type V = CreateView;

    open spec fn view(&self) -> CreateView {
        CreateView {
            name: self.name@,
            description: self.description@,
            tags: self.tags.deep_view(),
            dependencies: self.dependencies.deep_view(),
        }
    }
}

/// A partial update: only fields that are present change; the others keep
/// their prior values.
#[derive(Debug)]
pub struct UpdateEventRequest {
    pub id: String,
    pub name: Option<String>,
    pub description: Option<String>,
    pub tags: Option<Vec<(String, String)>>,
    pub status: Option<EventStatus>,
    pub dependencies: Option<Vec<String>>,
}

/// The mathematical view of a partial update.
#[verifier::ext_equal]
pub struct UpdateView {
    pub id: Seq<char>,
    pub name: Option<Seq<char>>,
    pub description: Option<Seq<char>>,
    pub tags: Option<Seq<(Seq<char>, Seq<char>)>>,
    pub status: Option<EventStatus>,
    pub dependencies: Option<Seq<Seq<char>>>,
}

impl View for UpdateEventRequest {
    type V = UpdateView;

    open spec fn view(&self) -> UpdateView {
        UpdateView {
            id: self.id@,
            name: self.name.deep_view(),
            description: self.description.deep_view(),
            tags: self.tags.deep_view(),
            status: self.status,
            dependencies: self.dependencies.deep_view(),
        }
    }
}

/// The task that results from applying a partial update to `t` at time `now`.
pub open spec fn apply_update(t: TaskView, r: UpdateView, now: i64) -> TaskView {
    TaskView {
        id: t.id,
        name: if r.name is Some { r.name->0 } else { t.name },
        description: if r.description is Some { r.description->0 } else { t.description },
        tags: if r.tags is Some { r.tags->0 } else { t.tags },
        status: if r.status is Some { r.status->0 } else { t.status },
        created_at: t.created_at,
        updated_at: now,
        dependencies: if r.dependencies is Some { r.dependencies->0 } else { t.dependencies },
    }
}

/// An optional status equality, an optional exact-match-on-all-pairs tag
/// filter, and an optional case-sensitive substring match against name or
/// description.
#[derive(Debug)]
pub struct EventFilter {
    pub status: Option<EventStatus>,
    pub tags: Option<Vec<(String, String)>>,
    pub search: Option<String>,
}

/// The mathematical view of a filter.
#[verifier::ext_equal]
pub struct FilterView {
    pub status: Option<EventStatus>,
    pub tags: Option<Seq<(Seq<char>, Seq<char>)>>,
    pub search: Option<Seq<char>>,
}

impl View for EventFilter {
    type V = FilterView;

    open spec fn view(&self) -> FilterView {
        FilterView {
            status: self.status,
            tags: self.tags.deep_view(),
            search: self.search.deep_view(),
        }
    }
}

/// Every wanted tag pair is present, with exactly the wanted value.
pub open spec fn tags_all_match(
    tags: Seq<(Seq<char>, Seq<char>)>,
    want: Seq<(Seq<char>, Seq<char>)>,
) -> bool {
    forall|j: int|
        0 <= j < want.len() ==> tag_lookup(tags, (#[trigger] want[j]).0) == Some(want[j].1)
}

/// A task passes a filter when it meets every clause the filter carries. An
/// empty search string puts no constraint on the task.
pub open spec fn matches_filter(t: TaskView, f: FilterView) -> bool {
    &&& (f.status is Some ==> t.status == f.status->0)
    &&& (f.search is Some && f.search->0.len() > 0 ==> is_substring_of(f.search->0, t.name)
        || is_substring_of(f.search->0, t.description))
    &&& (f.tags is Some ==> tags_all_match(t.tags, f.tags->0))
}

/// Copy a list of ids.
pub fn clone_ids(v: &Vec<String>) -> (r: Vec<String>)
    ensures
        r.deep_view() == v.deep_view(),
{
    let mut r: Vec<String> = Vec::new();
    let mut i: usize = 0;
    while i < v.len()
        invariant
            i <= v.len(),
            r.len() == i,
            forall|k: int| 0 <= k < i ==> r.deep_view()[k] == v.deep_view()[k],
        decreases v.len() - i,
    {
        r.push(v[i].clone());
        i += 1;
    }
    assert(r.deep_view() =~= v.deep_view());
    r
}

/// Copy a tag list.
pub fn clone_tags(v: &Vec<(String, String)>) -> (r: Vec<(String, String)>)
    ensures
        r.deep_view() == v.deep_view(),
{
    let mut r: Vec<(String, String)> = Vec::new();
    let mut i: usize = 0;
    while i < v.len()
        invariant
            i <= v.len(),
            r.len() == i,
            forall|k: int| 0 <= k < i ==> r.deep_view()[k] == v.deep_view()[k],
        decreases v.len() - i,
    {
        r.push((v[i].0.clone(), v[i].1.clone()));
        i += 1;
    }
    assert(r.deep_view() =~= v.deep_view());
    r
}

impl TodoEvent {
    /// Build a task from explicit parts: the caller supplies the fresh id and
    /// the creation time; the initial status is the default, `Pending`.
    pub fn from_parts(
        id: String,
        name: String,
        description: String,
        tags: Vec<(String, String)>,
        dependencies: Vec<String>,
        now: i64,
    ) -> (r: TodoEvent)
        ensures
            r@.id == id@,
            r@.name == name@,
            r@.description == description@,
            r@.tags == tags.deep_view(),
            r@.status == EventStatus::Pending,
            r@.created_at == now,
            r@.updated_at == now,
            r@.dependencies == dependencies.deep_view(),
    {
        TodoEvent {
            id,
            name,
            description,
            tags,
            status: EventStatus::default(),
            created_at: now,
            updated_at: now,
            dependencies,
        }
    }

    /// Build a task with a freshly generated id and the current time for both
    /// timestamps. The id and the timestamps come from outside providers, so
    /// only the remaining fields are pinned down.
    pub fn new(
        name: String,
        description: String,
        tags: Vec<(String, String)>,
        dependencies: Vec<String>,
    ) -> (r: TodoEvent)
        ensures
            r@.name == name@,
            r@.description == description@,
            r@.tags == tags.deep_view(),
            r@.status == EventStatus::Pending,
            r@.created_at == r@.updated_at,
            r@.dependencies == dependencies.deep_view(),
    {
        let id = crate::fresh::fresh_id();
        let now = crate::fresh::now_timestamp();
        TodoEvent::from_parts(id, name, description, tags, dependencies, now)
    }

    /// Apply a partial update at time `now`: fields present in the request
    /// replace the old values, the others stay; `updated_at` is refreshed.
    pub fn update(&mut self, request: UpdateEventRequest, now: i64)
        ensures
            final(self)@ == apply_update(old(self)@, request@, now),
    {
        if let Some(name) = request.name {
            self.name = name;
        }
        if let Some(description) = request.description {
            self.description = description;
        }
        if let Some(tags) = request.tags {
            self.tags = tags;
        }
        if let Some(status) = request.status {
            self.status = status;
        }
        if let Some(dependencies) = request.dependencies {
            self.dependencies = dependencies;
        }
        self.updated_at = now;
        assert(self@ =~= apply_update(old(self)@, request@, now));
    }

    /// A task value equal to this one, field for field.
    pub fn duplicate(&self) -> (r: TodoEvent)
        ensures
            r@ == self@,
    {
        let r = TodoEvent {
            id: self.id.clone(),
            name: self.name.clone(),
            description: self.description.clone(),
            tags: clone_tags(&self.tags),
            status: self.status,
            created_at: self.created_at,
            updated_at: self.updated_at,
            dependencies: clone_ids(&self.dependencies),
        };
        assert(r@ =~= self@);
        r
    }
}

/// A database file's display record: path, name, and human-readable
/// modification time and size.
#[derive(Debug)]
pub struct DatabaseInfo {
    pub path: String,
    pub name: String,
    pub last_modified: String,
    pub size: String,
}

/// The tasks among the first `upto` of `s` that pass the filter, in order.
pub open spec fn filtered_prefix(s: Seq<TaskView>, f: FilterView, upto: int) -> Seq<TaskView>
    decreases upto,
{
    if upto <= 0 {
        Seq::empty()
    } else if matches_filter(s[upto - 1], f) {
        filtered_prefix(s, f, upto - 1).push(s[upto - 1])
    } else {
        filtered_prefix(s, f, upto - 1)
    }
}

/// Decide `matches_filter` for one task.
pub fn event_matches_filter(event: &TodoEvent, filter: &EventFilter) -> (r: bool)
    ensures
        r == matches_filter(event@, filter@),
{
    if let Some(st) = &filter.status {
        if event.status != *st {
            return false;
        }
    }
    if let Some(search) = &filter.search {
        if !search.as_str().is_empty() {
            let in_name = contains_substring(event.name.as_str(), search.as_str());
            let in_description = contains_substring(event.description.as_str(), search.as_str());
            if !in_name && !in_description {
                return false;
            }
        }
    }
    if let Some(want) = &filter.tags {
        let mut j: usize = 0;
        while j < want.len()
            invariant
                j <= want.len(),
                filter.tags is Some,
                want.deep_view() == filter@.tags->0,
                forall|k: int|
                    0 <= k < j ==> tag_lookup(event@.tags, (#[trigger] want.deep_view()[k]).0)
                        == Some(want.deep_view()[k].1),
            decreases want.len() - j,
        {
            proof {
                assert(want.deep_view()[j as int] == (want@[j as int].0@, want@[j as int].1@));
            }
            let wanted = tags_get(&event.tags, want[j].0.as_str());
            match wanted {
                Some(v) => {
                    if !str_eq(v.as_str(), want[j].1.as_str()) {
                        return false;
                    }
                },
                None => {
                    return false;
                },
            }
            j += 1;
        }
    }
    true
}

} // verus!
