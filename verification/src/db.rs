//! Domain records and the rules applied before they are stored: ids,
//! required names, assignment status and custom fields, providers and
//! their keys, remembered values, and backup checks.
use vstd::prelude::*;
use crate::text::{blank, chars_of, is_blank, owned, same_text, seq_equal, texts, trim, trimmed};

verus! {

/// A semester.
#[derive(Debug)]
pub struct Semester {
    pub id: String,
    pub name: String,
    pub source_root: String,
}

/// A course of a semester.
#[derive(Debug)]
pub struct Course {
    pub id: String,
    pub semester_id: String,
    pub name: String,
    pub code: String,
    pub folder_path: String,
}

/// An assignment of a course.
#[derive(Debug)]
pub struct Assignment {
    pub id: String,
    pub course_id: String,
    pub title: String,
    pub description: String,
    pub due_at: Option<String>,
    pub status: String,
    pub submission_label: String,
    pub submission_url: String,
    pub submission_notes: String,
    pub source_name: String,
    pub source_text: String,
    pub created_at: String,
    pub updated_at: String,
    /// User-defined fields as (key, value) pairs; keys are distinct.
    pub custom_fields: Vec<(String, String)>,
}

/// A file that is a course's common reference.
#[derive(Debug)]
pub struct CommonFile {
    pub course_id: String,
    pub file_id: String,
    pub kind: String,
    pub label: String,
}

/// A file known to the application, by path.
#[derive(Debug)]
pub struct FileAsset {
    pub id: String,
    pub path: String,
    pub missing: bool,
}

/// The link of a file to an assignment.
#[derive(Debug)]
pub struct FileLink {
    pub id: String,
    pub assignment_id: String,
    pub file_id: String,
    pub role: String,
    pub page: String,
    pub chapter: String,
    pub problem: String,
    pub note: String,
}

/// A recorded rename.
#[derive(Debug)]
pub struct RenameEvent {
    pub id: String,
    pub file_id: String,
    pub old_path: String,
    pub new_path: String,
    pub changed_at: String,
    pub undone_at: Option<String>,
}

/// A model provider as the settings show it.
#[derive(Debug)]
pub struct Provider {
    pub id: String,
    pub name: String,
    pub kind: String,
    pub base_url: String,
    pub model: String,
    pub has_key: bool,
}

/// The application settings.
#[derive(Debug)]
pub struct Settings {
    pub theme: String,
    pub naming_template: String,
    pub assignment_provider_id: String,
    pub material_provider_id: String,
}

/// Everything the interface shows, read at once.
#[derive(Debug)]
pub struct Snapshot {
    pub semesters: Vec<Semester>,
    pub courses: Vec<Course>,
    pub assignments: Vec<Assignment>,
    pub files: Vec<FileAsset>,
    pub links: Vec<FileLink>,
    pub common_files: Vec<CommonFile>,
    pub renames: Vec<RenameEvent>,
    pub providers: Vec<Provider>,
    pub settings: Settings,
    /// Remembered values by field, most recent first.
    pub recent_values: Vec<(String, Vec<String>)>,
}

/// A provider as the user submits it.
#[derive(Debug)]
pub struct ProviderInput {
    pub id: String,
    pub name: String,
    pub kind: String,
    pub base_url: String,
    pub model: String,
    pub api_key: String,
}

// -------------------------------------------------------------------- ids

/// A lower-case hexadecimal digit.
pub open spec fn hex_digit(c: char) -> bool {
    ('0' <= c && c <= '9') || ('a' <= c && c <= 'f')
}

/// The hyphenated lower-case form of a random (version 4, RFC 4122
/// variant) UUID: hex digits with hyphens at 8, 13, 18 and 23, the version
/// digit `4` at 14 and a variant digit `8`, `9`, `a` or `b` at 19.
pub open spec fn uuid_text(s: Seq<char>) -> bool {
    &&& s.len() == 36
    &&& forall|i: int|
        0 <= i < 36 ==> if i == 8 || i == 13 || i == 18 || i == 23 {
            #[trigger] s[i] == '-'
        } else {
            hex_digit(s[i])
        }
    &&& s[14] == '4'
    &&& (s[19] == '8' || s[19] == '9' || s[19] == 'a' || s[19] == 'b')
}

/// `uuid::Uuid::new_v4().to_string()`: a random UUID, different each time,
/// so its value is not named; every outcome is in the hyphenated
/// lower-case form with the version 4 and RFC 4122 variant digits that
/// `new_v4` sets.
#[verifier::external_body]
fn new_uuid() -> (r: String)
    ensures
        uuid_text(r@),
{
    uuid::Uuid::new_v4().to_string()
}

/// A UUID in text form is never blank: it starts and ends with a digit.
proof fn lemma_uuid_not_blank(s: Seq<char>)
    requires
        uuid_text(s),
    ensures
        !is_blank(s),
{
    assert(hex_digit(s[0]));
    assert(hex_digit(s[35]));
    assert(crate::text::trim_start(s) == s);
    assert(crate::text::trim_end(s) == s);
}

/// The id to store: the given id when it is not blank, else a new UUID;
/// either way the stored id is never blank.
pub fn id_or_new(id: &str) -> (r: String)
    ensures
        !is_blank(id@) ==> r@ == id@,
        is_blank(id@) ==> uuid_text(r@),
        !is_blank(r@),
{
    if blank(id) {
        let r = new_uuid();
        proof {
            lemma_uuid_not_blank(r@);
        }
        r
    } else {
        owned(id)
    }
}

// --------------------------------------------------------------- API keys

/// The keyring entry type.
#[verifier::external_type_specification]
#[verifier::external_body]
pub struct ExEntry(keyring::Entry);

/// The service under which provider keys are stored.
pub const KEY_SERVICE: &'static str = "app.homeworkbook.local";

/// Where a provider's key is kept in the credential store: the
/// application's service and the provider's id as the account.
pub fn key_location(id: &str) -> (r: (String, String))
    ensures
        r.0@ == KEY_SERVICE@,
        r.1@ == id@,
{
    (owned(KEY_SERVICE), owned(id))
}

/// A message of keyring's errors: every one of them starts with an
/// upper-case ASCII letter ("Platform…", "Couldn't…", "No matching…",
/// "Data…", "Attribute…", "Entry…").
pub open spec fn keyring_message(e: Seq<char>) -> bool {
    e.len() > 0 && 'A' <= e[0] && e[0] <= 'Z'
}

/// `keyring::Entry::new` for a service and a user; whether it succeeds
/// depends on the platform's credential store, so nothing is promised of
/// the outcome but the form of its error: the text of a keyring error.
#[verifier::external_body]
fn key_entry(service: &str, user: &str) -> (r: Result<keyring::Entry, String>)
    ensures
        r matches Err(e) ==> keyring_message(e@),
{
    keyring::Entry::new(service, user).map_err(|e| e.to_string())
}

/// `keyring::Entry::get_password`; what it returns depends on what the
/// credential store holds, so nothing is promised of the outcome. Its
/// error is dropped: every failure reads as a missing key.
#[verifier::external_body]
fn entry_password(entry: &keyring::Entry) -> (r: Result<String, ()>) {
    entry.get_password().map_err(|_| ())
}

/// The message for a provider whose key cannot be read.
pub open spec fn missing_key_message() -> Seq<char> {
    "此服务商尚未保存 API Key"@
}

/// What reading a stored key gives: the password, or the message that no
/// key is saved.
pub fn key_from_store(read: Result<String, ()>) -> (r: Result<String, String>)
    ensures
        match read {
            Ok(p) => r matches Ok(q) && q == p,
            Err(_) => r matches Err(e) && e@ == missing_key_message(),
        },
{
    match read {
        Ok(p) => Ok(p),
        Err(_) => Err(owned("此服务商尚未保存 API Key")),
    }
}

/// Reads a provider's API key from the credential store, at the place
/// `key_location` gives. What comes back depends on the store, so success
/// is never promised; whatever comes back, an error is either keyring's
/// own (the entry could not be made) or the message that no key is saved.
pub fn provider_key(id: &str) -> (r: Result<String, String>)
    ensures
        r matches Err(e) ==> e@ == missing_key_message() || keyring_message(e@),
{
    let location = key_location(id);
    let entry = key_entry(location.0.as_str(), location.1.as_str())?;
    key_from_store(entry_password(&entry))
}

// ---------------------------------------------------------------- records

/// The semester to store, or the message when its name is blank.
pub fn prepare_semester(payload: &Semester) -> (r: Result<Semester, String>)
    ensures
        r is Err <==> is_blank(payload.name@),
        r matches Err(e) ==> e@ == "学期名称不能为空"@,
        r matches Ok(s) ==> {
            &&& (!is_blank(payload.id@) ==> s.id@ == payload.id@)
            &&& (is_blank(payload.id@) ==> uuid_text(s.id@))
            &&& s.name@ == trim(payload.name@)
            &&& s.source_root@ == trim(payload.source_root@)
        },
{
    let id = id_or_new(payload.id.as_str());
    if blank(payload.name.as_str()) {
        return Err(owned("学期名称不能为空"));
    }
    Ok(
        Semester {
            id,
            name: trimmed(payload.name.as_str()),
            source_root: trimmed(payload.source_root.as_str()),
        },
    )
}

/// The course to store, or the message when its name is blank.
pub fn prepare_course(payload: &Course) -> (r: Result<Course, String>)
    ensures
        r is Err <==> is_blank(payload.name@),
        r matches Err(e) ==> e@ == "课程名称不能为空"@,
        r matches Ok(c) ==> {
            &&& (!is_blank(payload.id@) ==> c.id@ == payload.id@)
            &&& (is_blank(payload.id@) ==> uuid_text(c.id@))
            &&& c.semester_id@ == payload.semester_id@
            &&& c.name@ == trim(payload.name@)
            &&& c.code@ == trim(payload.code@)
            &&& c.folder_path@ == trim(payload.folder_path@)
        },
{
    let id = id_or_new(payload.id.as_str());
    if blank(payload.name.as_str()) {
        return Err(owned("课程名称不能为空"));
    }
    Ok(
        Course {
            id,
            semester_id: payload.semester_id.clone(),
            name: trimmed(payload.name.as_str()),
            code: trimmed(payload.code.as_str()),
            folder_path: trimmed(payload.folder_path.as_str()),
        },
    )
}

/// The states an assignment can be in.
pub open spec fn is_status(s: Seq<char>) -> bool {
    s == "todo"@ || s == "doing"@ || s == "done"@ || s == "submitted"@
}

/// The most custom fields an assignment keeps.
pub const CUSTOM_FIELD_LIMIT: usize = 40;

/// A custom field that may be stored: a key that is not blank and has at
/// most 80 characters, and a value of at most 4000 characters.
pub open spec fn custom_field_ok(key: Seq<char>, value: Seq<char>) -> bool {
    &&& !is_blank(key)
    &&& key.len() <= 80
    &&& value.len() <= 4000
}

/// Custom fields that may be stored: at most forty, each acceptable.
pub open spec fn custom_fields_ok(fields: Seq<(String, String)>) -> bool {
    &&& fields.len() <= CUSTOM_FIELD_LIMIT
    &&& forall|i: int| 0 <= i < fields.len() ==> custom_field_ok((#[trigger] fields[i]).0@, fields[i].1@)
}

/// The assignment fields that are checked and normalized before storing.
#[derive(Debug)]
pub struct AssignmentUpdate {
    pub id: String,
    pub title: String,
    pub due_at: Option<String>,
    /// Custom fields with trimmed keys.
    pub custom_fields: Vec<(String, String)>,
}

/// Checks an assignment before it is stored: its title must not be blank,
/// its status must be one of the four states, and its custom fields must
/// be acceptable. On success: the id to store, the trimmed title, the due
/// time with an empty one cleared, and the custom fields with keys trimmed.
pub fn prepare_assignment(payload: &Assignment) -> (r: Result<AssignmentUpdate, String>)
    ensures
        r is Ok <==> !is_blank(payload.title@) && is_status(payload.status@) && custom_fields_ok(
            payload.custom_fields@,
        ),
        is_blank(payload.title@) ==> (r matches Err(e) && e@ == "作业标题不能为空"@),
        !is_blank(payload.title@) && !is_status(payload.status@) ==> (r matches Err(e) && e@
            == "无效的作业状态"@),
        !is_blank(payload.title@) && is_status(payload.status@) && !custom_fields_ok(
            payload.custom_fields@,
        ) ==> (r matches Err(e) && e@ == "自定义字段数量或长度超出限制"@),
        r matches Ok(u) ==> {
            &&& (!is_blank(payload.id@) ==> u.id@ == payload.id@)
            &&& (is_blank(payload.id@) ==> uuid_text(u.id@))
            &&& u.title@ == trim(payload.title@)
            &&& match payload.due_at {
                Some(d) => if d@.len() == 0 {
                    u.due_at is None
                } else {
                    u.due_at matches Some(e) && e@ == d@
                },
                None => u.due_at is None,
            }
            &&& u.custom_fields@.len() == payload.custom_fields@.len()
            &&& forall|i: int|
                0 <= i < u.custom_fields@.len() ==> (#[trigger] u.custom_fields@[i]).0@ == trim(
                    payload.custom_fields@[i].0@,
                ) && u.custom_fields@[i].1@ == payload.custom_fields@[i].1@
        },
{
    let id = id_or_new(payload.id.as_str());
    if blank(payload.title.as_str()) {
        return Err(owned("作业标题不能为空"));
    }
    let s = payload.status.as_str();
    if !(same_text(s, "todo") || same_text(s, "doing") || same_text(s, "done") || same_text(s, "submitted")) {
        return Err(owned("无效的作业状态"));
    }
    let fields = &payload.custom_fields;
    if fields.len() > CUSTOM_FIELD_LIMIT {
        return Err(owned("自定义字段数量或长度超出限制"));
    }
    let mut i: usize = 0;
    while i < fields.len()
        invariant
            i <= fields@.len(),
            fields@ == payload.custom_fields@,
            fields@.len() <= CUSTOM_FIELD_LIMIT,
            !is_blank(payload.title@),
            is_status(payload.status@),
            forall|k: int| 0 <= k < i ==> custom_field_ok((#[trigger] fields@[k]).0@, fields@[k].1@),
        decreases fields.len() - i,
    {
        let (k, v) = &fields[i];
        if blank(k.as_str()) || chars_of(k.as_str()).len() > 80 || chars_of(v.as_str()).len() > 4000 {
            assert(!custom_field_ok(fields@[i as int].0@, fields@[i as int].1@));
            return Err(owned("自定义字段数量或长度超出限制"));
        }
        i += 1;
    }
    let mut trimmed_fields: Vec<(String, String)> = Vec::new();
    let mut j: usize = 0;
    while j < fields.len()
        invariant
            j <= fields@.len(),
            trimmed_fields@.len() == j,
            forall|k: int|
                0 <= k < j ==> (#[trigger] trimmed_fields@[k]).0@ == trim(fields@[k].0@)
                    && trimmed_fields@[k].1@ == fields@[k].1@,
        decreases fields.len() - j,
    {
        let (k, v) = &fields[j];
        trimmed_fields.push((trimmed(k.as_str()), v.clone()));
        j += 1;
    }
    let due_at = match &payload.due_at {
        Some(d) => if d.as_str().is_empty() {
            None
        } else {
            Some(d.clone())
        },
        None => None,
    };
    Ok(
        AssignmentUpdate {
            id,
            title: trimmed(payload.title.as_str()),
            due_at,
            custom_fields: trimmed_fields,
        },
    )
}

/// The most bytes a remembered value may have.
pub const RECENT_VALUE_LIMIT: usize = 500;

/// The value remembered for later suggestions: the trimmed value, when it
/// is not empty and at most 500 bytes long.
pub open spec fn recent_value_spec(value: Seq<char>) -> Option<Seq<char>> {
    let t = trim(value);
    if t.len() > 0 && (vstd::utf8::encode_utf8(t).len() as usize) <= RECENT_VALUE_LIMIT {
        Some(t)
    } else {
        None
    }
}

/// The value to remember, if any.
pub fn recent_value(value: &str) -> (r: Option<String>)
    ensures
        match recent_value_spec(value@) {
            Some(t) => r matches Some(s) && s@ == t,
            None => r is None,
        },
{
    let t = trimmed(value);
    if !t.as_str().is_empty() && t.as_str().len() <= RECENT_VALUE_LIMIT {
        Some(t)
    } else {
        None
    }
}

/// The most remembered values shown per field.
pub const RECENT_VALUES_SHOWN: usize = 12;

/// The values of the rows for `field`, in row order.
pub open spec fn values_of(rows: Seq<(String, String)>, field: Seq<char>) -> Seq<Seq<char>>
    decreases rows.len(),
{
    if rows.len() == 0 {
        Seq::empty()
    } else {
        let rest = values_of(rows.drop_last(), field);
        if rows.last().0@ == field {
            rest.push(rows.last().1@)
        } else {
            rest
        }
    }
}

/// At most the first twelve.
pub open spec fn first_shown(s: Seq<Seq<char>>) -> Seq<Seq<char>> {
    if s.len() <= RECENT_VALUES_SHOWN {
        s
    } else {
        s.take(RECENT_VALUES_SHOWN as int)
    }
}

/// Whether some row has the field.
pub open spec fn has_field(rows: Seq<(String, String)>, field: Seq<char>) -> bool {
    exists|i: int| 0 <= i < rows.len() && (#[trigger] rows[i]).0@ == field
}

/// Groups are correct for `rows`: one group per field that occurs, each
/// holding the first twelve values of that field in row order.
pub open spec fn groups_of(rows: Seq<(String, String)>, groups: Seq<(String, Vec<String>)>) -> bool {
    &&& forall|g: int|
        0 <= g < groups.len() ==> has_field(rows, (#[trigger] groups[g]).0@) && texts(groups[g].1@)
            == first_shown(values_of(rows, groups[g].0@))
    &&& forall|g: int, h: int| 0 <= g < h < groups.len() ==> (#[trigger] groups[g]).0@ != (#[trigger] groups[h]).0@
    &&& forall|i: int|
        0 <= i < rows.len() ==> exists|g: int| 0 <= g < groups.len() && (#[trigger] groups[g]).0@ == (
        #[trigger] rows[i]).0@
}

proof fn lemma_values_step(rows: Seq<(String, String)>, i: int, field: Seq<char>)
    requires
        0 <= i < rows.len(),
    ensures
        values_of(rows.take(i + 1), field) == if rows[i].0@ == field {
            values_of(rows.take(i), field).push(rows[i].1@)
        } else {
            values_of(rows.take(i), field)
        },
{
    assert(rows.take(i + 1).drop_last() =~= rows.take(i));
}

fn find_group(groups: &Vec<(String, Vec<String>)>, field: &Vec<char>) -> (r: Option<usize>)
    ensures
        match r {
            Some(g) => g < groups@.len() && groups@[g as int].0@ == field@,
            None => forall|h: int| 0 <= h < groups@.len() ==> (#[trigger] groups@[h]).0@ != field@,
        },
{
    let mut g: usize = 0;
    while g < groups.len()
        invariant
            g <= groups@.len(),
            forall|h: int| 0 <= h < g ==> (#[trigger] groups@[h]).0@ != field@,
        decreases groups.len() - g,
    {
        if seq_equal(&chars_of(groups[g].0.as_str()), field) {
            return Some(g);
        }
        g += 1;
    }
    None
}

proof fn lemma_first_shown_push(s: Seq<Seq<char>>, v: Seq<char>)
    ensures
        first_shown(s).len() < RECENT_VALUES_SHOWN ==> first_shown(s.push(v)) == first_shown(s).push(v),
        first_shown(s).len() >= RECENT_VALUES_SHOWN ==> first_shown(s.push(v)) == first_shown(s),
{
    if s.len() >= RECENT_VALUES_SHOWN {
        assert(s.push(v).take(RECENT_VALUES_SHOWN as int) =~= s.take(RECENT_VALUES_SHOWN as int));
    }
}

/// Remembered values grouped by field: rows come most recent first, and
/// each field keeps its first twelve values.
pub fn group_recent_values(rows: &Vec<(String, String)>) -> (r: Vec<(String, Vec<String>)>)
    ensures
        groups_of(rows@, r@),
{
    let mut groups: Vec<(String, Vec<String>)> = Vec::new();
    let mut i: usize = 0;
    assert(rows@.take(0) =~= Seq::<(String, String)>::empty());
    while i < rows.len()
        invariant
            i <= rows@.len(),
            groups_of(rows@.take(i as int), groups@),
        decreases rows.len() - i,
    {
        let ghost before = groups@;
        let ghost pre = rows@.take(i as int);
        let ghost post = rows@.take(i + 1);
        assert(post.drop_last() =~= pre);
        assert(post[i as int] == rows@[i as int]);
        assert forall|k: int| 0 <= k < i implies #[trigger] post[k] == pre[k] by {}
        let (field, value) = &rows[i];
        let fv = chars_of(field.as_str());
        proof {
            lemma_values_step(rows@, i as int, fv@);
            assert forall|h: int| 0 <= h < before.len() && before[h].0@ != fv@ implies values_of(
                post,
                (#[trigger] before[h]).0@,
            ) == values_of(pre, before[h].0@) by {
                lemma_values_step(rows@, i as int, before[h].0@);
            }
        }
        let ghost gi: int;
        match find_group(&groups, &fv) {
            Some(g) => {
                let ghost old_vals = values_of(pre, fv@);
                proof {
                    lemma_first_shown_push(old_vals, rows@[i as int].1@);
                }
                let mut entry: (String, Vec<String>) = (String::new(), Vec::new());
                std::mem::swap(&mut entry, &mut groups[g]);
                assert(entry == before[g as int]);
                if entry.1.len() < RECENT_VALUES_SHOWN {
                    let ghost vals_before = entry.1@;
                    entry.1.push(value.clone());
                    assert(texts(entry.1@) =~= texts(vals_before).push(rows@[i as int].1@));
                }
                groups.set(g, entry);
                proof {
                    gi = g as int;
                }
            },
            None => {
                let mut vals: Vec<String> = Vec::new();
                vals.push(value.clone());
                proof {
                    assert forall|k: int| 0 <= k < pre.len() implies (#[trigger] pre[k]).0@ != fv@ by {
                        if pre[k].0@ == fv@ {
                            let gg = choose|gg: int|
                                0 <= gg < before.len() && (#[trigger] before[gg]).0@ == (#[trigger] pre[k]).0@;
                        }
                    }
                    lemma_no_values(pre, fv@);
                    assert(texts(vals@) =~= first_shown(Seq::<Seq<char>>::empty().push(rows@[i as int].1@)));
                    gi = before.len() as int;
                }
                groups.push((field.clone(), vals));
            },
        }
        proof {
            assert(0 <= gi < groups@.len() && groups@[gi].0@ == fv@);
            assert(groups@.len() >= before.len());
            assert forall|h: int| 0 <= h < before.len() && h != gi implies #[trigger] groups@[h] == before[h] by {}
            assert forall|k: int| 0 <= k < post.len() implies exists|gg: int|
                0 <= gg < groups@.len() && (#[trigger] groups@[gg]).0@ == (#[trigger] post[k]).0@ by {
                if k < i {
                    let gg = choose|gg: int|
                        0 <= gg < before.len() && (#[trigger] before[gg]).0@ == (#[trigger] pre[k]).0@;
                    assert(groups@[gg].0@ == before[gg].0@);
                } else {
                    assert(groups@[gi].0@ == post[k].0@);
                }
            }
            assert forall|gg: int| 0 <= gg < groups@.len() implies has_field(post, (#[trigger] groups@[gg]).0@)
                && texts(groups@[gg].1@) == first_shown(values_of(post, groups@[gg].0@)) by {
                if gg == gi {
                    assert(post[i as int].0@ == fv@);
                } else {
                    let k = choose|k: int| 0 <= k < pre.len() && (#[trigger] pre[k]).0@ == before[gg].0@;
                    assert(post[k] == pre[k]);
                }
            }
            assert forall|g1: int, g2: int| 0 <= g1 < g2 < groups@.len() implies (#[trigger] groups@[g1]).0@
                != (#[trigger] groups@[g2]).0@ by {
                if g1 != gi && g2 != gi {
                    assert(groups@[g1] == before[g1] && groups@[g2] == before[g2]);
                } else if g1 == gi {
                    assert(groups@[g2] == before[g2]);
                } else {
                    assert(groups@[g1] == before[g1]);
                }
            }
        }
        i += 1;
    }
    assert(rows@.take(rows@.len() as int) =~= rows@);
    groups
}

/// Each remembered-value group offers at most twelve suggestions.
pub proof fn lemma_groups_bounded(rows: Seq<(String, String)>, groups: Seq<(String, Vec<String>)>)
    requires
        groups_of(rows, groups),
    ensures
        forall|g: int| 0 <= g < groups.len() ==> (#[trigger] groups[g]).1@.len() <= RECENT_VALUES_SHOWN,
{
    assert forall|g: int| 0 <= g < groups.len() implies (#[trigger] groups[g]).1@.len() <= RECENT_VALUES_SHOWN by {
        assert(texts(groups[g].1@).len() == groups[g].1@.len());
    }
}

proof fn lemma_no_values(rows: Seq<(String, String)>, field: Seq<char>)
    requires
        forall|k: int| 0 <= k < rows.len() ==> (#[trigger] rows[k]).0@ != field,
    ensures
        values_of(rows, field) == Seq::<Seq<char>>::empty(),
    decreases rows.len(),
{
    if rows.len() > 0 {
        lemma_no_values(rows.drop_last(), field);
    }
}

// --------------------------------------------------------------- snapshot

/// The (key, value) pairs of the custom-field rows (assignment id, key,
/// value) that belong to `id`, in row order.
pub open spec fn fields_for(rows: Seq<(String, String, String)>, id: Seq<char>) -> Seq<(Seq<char>, Seq<char>)>
    decreases rows.len(),
{
    if rows.len() == 0 {
        Seq::empty()
    } else {
        let rest = fields_for(rows.drop_last(), id);
        if rows.last().0@ == id {
            rest.push((rows.last().1@, rows.last().2@))
        } else {
            rest
        }
    }
}

/// The text view of (key, value) pairs.
pub open spec fn pairs_view(v: Seq<(String, String)>) -> Seq<(Seq<char>, Seq<char>)> {
    Seq::new(v.len(), |i: int| (v[i].0@, v[i].1@))
}

/// Whether no assignment before position `i` has the same id.
pub open spec fn first_with_id(asg: Seq<Assignment>, i: int) -> bool {
    forall|j: int| 0 <= j < i ==> (#[trigger] asg[j]).id@ != asg[i].id@
}

/// `b` is `a` with only its custom fields possibly changed.
pub open spec fn same_but_fields(a: Assignment, b: Assignment) -> bool {
    &&& b.id == a.id
    &&& b.course_id == a.course_id
    &&& b.title == a.title
    &&& b.description == a.description
    &&& b.due_at == a.due_at
    &&& b.status == a.status
    &&& b.submission_label == a.submission_label
    &&& b.submission_url == a.submission_url
    &&& b.submission_notes == a.submission_notes
    &&& b.source_name == a.source_name
    &&& b.source_text == a.source_text
    &&& b.created_at == a.created_at
    &&& b.updated_at == a.updated_at
}

fn collect_fields(rows: &Vec<(String, String, String)>, id: &Vec<char>) -> (r: Vec<(String, String)>)
    ensures
        pairs_view(r@) == fields_for(rows@, id@),
{
    let mut r: Vec<(String, String)> = Vec::new();
    let mut k: usize = 0;
    assert(rows@.take(0) =~= Seq::<(String, String, String)>::empty());
    assert(pairs_view(r@) =~= fields_for(rows@.take(0), id@));
    while k < rows.len()
        invariant
            k <= rows@.len(),
            pairs_view(r@) == fields_for(rows@.take(k as int), id@),
        decreases rows.len() - k,
    {
        let ghost before = r@;
        assert(rows@.take(k + 1).drop_last() =~= rows@.take(k as int));
        assert(rows@.take(k + 1).last() == rows@[k as int]);
        if seq_equal(&chars_of(rows[k].0.as_str()), id) {
            r.push((rows[k].1.clone(), rows[k].2.clone()));
            assert(pairs_view(r@) =~= pairs_view(before).push((rows@[k as int].1@, rows@[k as int].2@)));
        }
        k += 1;
    }
    assert(rows@.take(k as int) =~= rows@);
    r
}

/// Gives each assignment its custom fields from the rows (assignment id,
/// key, value); the fields of an id go to the first assignment with it.
pub fn attach_custom_fields(assignments: Vec<Assignment>, rows: &Vec<(String, String, String)>) -> (r: Vec<
    Assignment,
>)
    ensures
        r@.len() == assignments@.len(),
        forall|i: int|
            0 <= i < r@.len() ==> {
                &&& same_but_fields(assignments@[i], #[trigger] r@[i])
                &&& pairs_view(r@[i].custom_fields@) == if first_with_id(assignments@, i) {
                    fields_for(rows@, assignments@[i].id@)
                } else {
                    Seq::empty()
                }
            },
{
    let ghost asg = assignments@;
    let mut input = assignments;
    let mut rev: Vec<Assignment> = Vec::new();
    while input.len() > 0
        invariant
            rev@.len() + input@.len() == asg.len(),
            input@ == asg.take(input@.len() as int),
            forall|k: int| 0 <= k < rev@.len() ==> #[trigger] rev@[k] == asg[asg.len() - 1 - k],
        decreases input.len(),
    {
        let a = input.pop().unwrap();
        rev.push(a);
        assert(input@ =~= asg.take(input@.len() as int));
    }
    let mut out: Vec<Assignment> = Vec::new();
    let mut seen: Vec<Vec<char>> = Vec::new();
    while rev.len() > 0
        invariant
            out@.len() + rev@.len() == asg.len(),
            seen@.len() == out@.len(),
            forall|k: int| 0 <= k < rev@.len() ==> #[trigger] rev@[k] == asg[asg.len() - 1 - k],
            forall|k: int| 0 <= k < seen@.len() ==> (#[trigger] seen@[k])@ == asg[k].id@,
            forall|k: int|
                0 <= k < out@.len() ==> {
                    &&& same_but_fields(asg[k], #[trigger] out@[k])
                    &&& pairs_view(out@[k].custom_fields@) == if first_with_id(asg, k) {
                        fields_for(rows@, asg[k].id@)
                    } else {
                        Seq::empty()
                    }
                },
        decreases rev.len(),
    {
        let i = out.len();
        let a = rev.pop().unwrap();
        assert(a == asg[i as int]);
        let id = chars_of(a.id.as_str());
        let mut earlier = false;
        let mut j: usize = 0;
        while j < seen.len()
            invariant
                j <= seen@.len(),
                seen@.len() == i,
                id@ == asg[i as int].id@,
                forall|k: int| 0 <= k < seen@.len() ==> (#[trigger] seen@[k])@ == asg[k].id@,
                earlier <==> exists|m: int| 0 <= m < j && (#[trigger] seen@[m])@ == id@,
            decreases seen.len() - j,
        {
            if seq_equal(&seen[j], &id) {
                earlier = true;
            }
            j += 1;
        }
        assert(first_with_id(asg, i as int) <==> !earlier) by {
            if earlier {
                let m = choose|m: int| 0 <= m < i && (#[trigger] seen@[m])@ == id@;
                assert(asg[m].id@ == asg[i as int].id@);
            } else {
                assert forall|m: int| 0 <= m < i implies (#[trigger] asg[m]).id@ != asg[i as int].id@ by {
                    assert(seen@[m]@ == asg[m].id@);
                }
            }
        }
        let fields: Vec<(String, String)> = if earlier {
            let v: Vec<(String, String)> = Vec::new();
            assert(pairs_view(v@) =~= Seq::<(Seq<char>, Seq<char>)>::empty());
            v
        } else {
            collect_fields(rows, &id)
        };
        out.push(
            Assignment {
                id: a.id,
                course_id: a.course_id,
                title: a.title,
                description: a.description,
                due_at: a.due_at,
                status: a.status,
                submission_label: a.submission_label,
                submission_url: a.submission_url,
                submission_notes: a.submission_notes,
                source_name: a.source_name,
                source_text: a.source_text,
                created_at: a.created_at,
                updated_at: a.updated_at,
                custom_fields: fields,
            },
        );
        seen.push(id);
    }
    out
}

/// The settings, each read value falling back to its default: the light
/// theme, the course-code naming template, and no providers chosen.
pub fn settings_with_defaults(
    theme: Option<String>,
    naming_template: Option<String>,
    assignment_provider_id: Option<String>,
    material_provider_id: Option<String>,
) -> (s: Settings)
    ensures
        s.theme@ == (match theme {
            Some(t) => t@,
            None => "light"@,
        }),
        s.naming_template@ == (match naming_template {
            Some(t) => t@,
            None => "{course_code}-{material}-hw-{scope}"@,
        }),
        s.assignment_provider_id@ == (match assignment_provider_id {
            Some(t) => t@,
            None => Seq::<char>::empty(),
        }),
        s.material_provider_id@ == (match material_provider_id {
            Some(t) => t@,
            None => Seq::<char>::empty(),
        }),
{
    Settings {
        theme: match theme {
            Some(t) => t,
            None => owned("light"),
        },
        naming_template: match naming_template {
            Some(t) => t,
            None => owned("{course_code}-{material}-hw-{scope}"),
        },
        assignment_provider_id: match assignment_provider_id {
            Some(t) => t,
            None => String::new(),
        },
        material_provider_id: match material_provider_id {
            Some(t) => t,
            None => String::new(),
        },
    }
}

// ------------------------------------------------------------ first start

/// The course code given to a course folder found on first start.
pub fn seed_course_code(folder: &str) -> (r: &'static str)
    ensures
        r@ == (if folder@ == "Calculus"@ {
            "MA117"@
        } else if folder@ == "Linear Algebra"@ {
            "MA113"@
        } else if folder@ == "Physics"@ {
            "PHY105"@
        } else {
            ""@
        }),
{
    if same_text(folder, "Calculus") {
        "MA117"
    } else if same_text(folder, "Linear Algebra") {
        "MA113"
    } else if same_text(folder, "Physics") {
        "PHY105"
    } else {
        ""
    }
}

/// Whether a read gave exactly the text `t`.
pub open spec fn read_is(content: Option<String>, t: Seq<char>) -> bool {
    match content {
        Some(c) => c@ == t,
        None => false,
    }
}

/// Whether the bundled default prompt is written: when the file does not
/// exist, or still holds the previous default unchanged.
pub fn default_prompt_due(file_exists: bool, content: Option<String>, previous: &str) -> (b: bool)
    ensures
        b == (!file_exists || read_is(content, previous@)),
{
    if !file_exists {
        return true;
    }
    match content {
        Some(c) => same_text(c.as_str(), previous),
        None => false,
    }
}

// -------------------------------------------------------------- providers

/// The provider kinds the application knows.
pub open spec fn is_provider_kind(kind: Seq<char>) -> bool {
    kind == "bailian"@ || kind == "deepseek"@ || kind == "custom"@
}

/// The settings know three provider kinds, `bailian`, `deepseek` and
/// `custom`, and no other: a provider of one of them with a name and a
/// model is accepted.
pub proof fn lemma_provider_kinds(kind: Seq<char>)
    ensures
        is_provider_kind(kind) <==> kind == "bailian"@ || kind == "deepseek"@ || kind == "custom"@,
        is_provider_kind("bailian"@) && is_provider_kind("deepseek"@) && is_provider_kind("custom"@),
{
}

/// Checks a submitted provider: its kind must be known and its name and
/// model must not be blank.
pub fn check_provider_input(payload: &ProviderInput) -> (r: Result<(), String>)
    ensures
        r is Ok <==> is_provider_kind(payload.kind@) && !is_blank(payload.name@) && !is_blank(
            payload.model@,
        ),
        !is_provider_kind(payload.kind@) ==> (r matches Err(e) && e@ == "无效的服务商类型"@),
        is_provider_kind(payload.kind@) && r is Err ==> (r matches Err(e) && e@ == "请填写服务商名称和模型"@),
{
    let k = payload.kind.as_str();
    if !(same_text(k, "bailian") || same_text(k, "deepseek") || same_text(k, "custom")) {
        return Err(owned("无效的服务商类型"));
    }
    if blank(payload.name.as_str()) || blank(payload.model.as_str()) {
        return Err(owned("请填写服务商名称和模型"));
    }
    Ok(())
}

// ---------------------------------------------------------------- backups

/// Refuses a backup without a destination.
pub fn check_backup_path(path: &str) -> (r: Result<(), String>)
    ensures
        r is Err <==> is_blank(path@),
        r matches Err(e) ==> e@ == "请选择备份路径"@,
{
    if blank(path) {
        return Err(owned("请选择备份路径"));
    }
    Ok(())
}

/// Refuses a backup whose integrity check did not answer `ok`.
pub fn check_backup_integrity(check: &str) -> (r: Result<(), String>)
    ensures
        r is Ok <==> check@ == "ok"@,
        r matches Err(e) ==> e@ == "备份数据库完整性检查失败"@,
{
    if !same_text(check, "ok") {
        return Err(owned("备份数据库完整性检查失败"));
    }
    Ok(())
}

/// Refuses a backup of a schema version this application cannot read.
pub fn check_backup_version(version: i64) -> (r: Result<(), String>)
    ensures
        r is Ok <==> 1 <= version <= 4,
        r matches Err(e) ==> e@ == "备份数据库版本不兼容"@,
{
    if !(1 <= version && version <= 4) {
        return Err(owned("备份数据库版本不兼容"));
    }
    Ok(())
}

} // verus!
