//! The metadata file of a recorded pull.

use vstd::prelude::*;

use crate::error::LimitcutError;
use crate::paths::{OutputPath, OutputView, PathInfo};
use crate::text::{
    cat2, chars_of, cut_back, cut_both, cut_edges, cut_front, is_blank, is_control, is_control_char,
    is_white, is_whitespace, law_trim_of_white_space, lemma_cut, lemma_cut_nothing,
    lemma_texts_push, texts, trim, trimmed, Edge,
};
use crate::timestamp::{clock_of, date_of, is_rfc3339, Timestamp};

verus! {

// ── Names of folders ─────────────────────────────────────────────────────

/// The characters that cannot stand in the name of a folder.
pub open spec fn is_forbidden(c: char) -> bool {
    c == '/' || c == '\\' || c == ':' || c == '*' || c == '?' || c == '"' || c == '<' || c == '>'
        || c == '|'
}

/// What stands for a character in the name of a folder: an underscore for
/// white space, nothing for a forbidden character or a control code.
pub open spec fn folder_char(c: char) -> Option<char> {
    if is_forbidden(c) {
        None
    } else if is_white(c) {
        Some('_')
    } else if is_control_char(c) {
        None
    } else {
        Some(c)
    }
}

/// The folder characters of `s` in order, with no underscore behind another.
pub open spec fn squeezed(s: Seq<char>) -> Seq<char>
    decreases s.len(),
{
    if s.len() == 0 {
        Seq::empty()
    } else {
        let before = squeezed(s.drop_last());
        match folder_char(s.last()) {
            None => before,
            Some(c) => if c == '_' && before.len() > 0 && before.last() == '_' {
                before
            } else {
                before.push(c)
            },
        }
    }
}

/// `name` with nothing in it that cannot stand in the name of a folder.
pub open spec fn normalized(name: Seq<char>) -> Seq<char> {
    cut_both(squeezed(trimmed(name)), Edge::Underscore)
}

fn forbidden(c: char) -> (r: bool)
    ensures
        r == is_forbidden(c),
{
    c == '/' || c == '\\' || c == ':' || c == '*' || c == '?' || c == '"' || c == '<' || c == '>'
        || c == '|'
}

/// The name of an encounter or a job with nothing in it that cannot stand in
/// the name of a folder.
pub fn normalize_encounter_name(name: &str) -> (r: String)
    ensures
        r@ == normalized(name@),
{
    let trimmed_name = trim(name);
    let cs = chars_of(trimmed_name.as_str());
    let mut out: Vec<char> = Vec::new();
    let mut i: usize = 0;
    while i < cs.len()
        invariant
            i <= cs.len(),
            out@ == squeezed(cs@.take(i as int)),
        decreases cs.len() - i,
    {
        let c = cs[i];
        proof {
            assert(cs@.take(i + 1).drop_last() =~= cs@.take(i as int));
            assert(cs@.take(i + 1).last() == c);
        }
        let next = if forbidden(c) {
            None
        } else if is_whitespace(c) {
            Some('_')
        } else if is_control(c) {
            None
        } else {
            Some(c)
        };
        if let Some(ch) = next {
            let again = ch == '_' && out.len() > 0 && out[out.len() - 1] == '_';
            if !again {
                out.push(ch);
            }
        }
        i += 1;
    }
    assert(cs@.take(i as int) =~= cs@);
    cut_edges(&out, Edge::Underscore)
}

// ── Fields ───────────────────────────────────────────────────────────────

/// The fields of a metadata file as they stand in it.
#[derive(Debug)]
pub struct PullToObsJson {
    pub started_at: Option<String>,
    pub encounter: Option<String>,
    pub job: Option<String>,
    pub recording: Option<String>,
    pub replay_buffer: Option<String>,
}

/// Whether a field is there and holds more than white space.
pub open spec fn is_filled(value: Option<String>) -> bool {
    value is Some && trimmed(value->0@).len() > 0
}

/// Whether `e` is the error for a field that is not filled.
pub open spec fn is_field_error(
    e: LimitcutError,
    value: Option<String>,
    path: Seq<char>,
    name: Seq<char>,
) -> bool {
    match e {
        LimitcutError::JsonMissingField { path: p, field } => value is None && p@ == path && field@
            == name,
        LimitcutError::JsonEmptyField { path: p, field } => value is Some && trimmed(
            value->0@,
        ).len() == 0 && p@ == path && field@ == name,
        _ => false,
    }
}

/// A field that must be there and hold more than white space, without the
/// white space around it.
pub fn required_non_empty(value: &Option<String>, path: &str, field: &'static str) -> (r: Result<
    String,
    LimitcutError,
>)
    ensures
        match r {
            Ok(s) => is_filled(*value) && s@ == trimmed(value->0@),
            Err(e) => !is_filled(*value) && is_field_error(e, *value, path@, field@),
        },
{
    match value {
        None => Err(LimitcutError::JsonMissingField { path: path.to_owned(), field }),
        Some(v) => {
            let s = trim(v.as_str());
            if s.as_str().is_empty() {
                Err(LimitcutError::JsonEmptyField { path: path.to_owned(), field })
            } else {
                Ok(s)
            }
        },
    }
}

/// A field that may be left out or hold nothing but white space.
pub open spec fn optional_text(value: Option<String>) -> Option<Seq<char>> {
    if is_filled(value) {
        Some(trimmed(value->0@))
    } else {
        None
    }
}

/// The text of a field without the white space around it, if that leaves any.
pub fn optional_non_empty(value: &Option<String>) -> (r: Option<String>)
    ensures
        match r {
            Some(s) => optional_text(*value) == Some(s@),
            None => optional_text(*value) is None,
        },
{
    match value {
        None => None,
        Some(v) => {
            let s = trim(v.as_str());
            if s.as_str().is_empty() {
                None
            } else {
                Some(s)
            }
        },
    }
}

/// The fields of a metadata file, each filled that must be.
#[derive(Debug)]
pub struct FilledFields {
    pub started_at: String,
    pub encounter: String,
    pub job: Option<String>,
    pub recording: String,
    pub replay_buffer: String,
}

/// The fields that must be filled, in the order in which they are looked at;
/// the first that is not makes the error.
pub fn filled_fields(raw: &PullToObsJson, path: &str) -> (r: Result<FilledFields, LimitcutError>)
    ensures
        match r {
            Ok(f) => {
                &&& is_filled(raw.started_at) && f.started_at@ == trimmed(raw.started_at->0@)
                &&& is_filled(raw.encounter) && f.encounter@ == trimmed(raw.encounter->0@)
                &&& is_filled(raw.recording) && f.recording@ == trimmed(raw.recording->0@)
                &&& is_filled(raw.replay_buffer) && f.replay_buffer@ == trimmed(
                    raw.replay_buffer->0@,
                )
                &&& match f.job {
                    Some(job) => optional_text(raw.job) == Some(job@),
                    None => optional_text(raw.job) is None,
                }
            },
            Err(e) => if !is_filled(raw.started_at) {
                is_field_error(e, raw.started_at, path@, "started_at"@)
            } else if !is_filled(raw.encounter) {
                is_field_error(e, raw.encounter, path@, "encounter"@)
            } else if !is_filled(raw.recording) {
                is_field_error(e, raw.recording, path@, "recording"@)
            } else {
                !is_filled(raw.replay_buffer) && is_field_error(
                    e,
                    raw.replay_buffer,
                    path@,
                    "replay_buffer"@,
                )
            },
        },
{
    let started_at = match required_non_empty(&raw.started_at, path, "started_at") {
        Ok(s) => s,
        Err(e) => {
            return Err(e);
        },
    };
    let encounter = match required_non_empty(&raw.encounter, path, "encounter") {
        Ok(s) => s,
        Err(e) => {
            return Err(e);
        },
    };
    let recording = match required_non_empty(&raw.recording, path, "recording") {
        Ok(s) => s,
        Err(e) => {
            return Err(e);
        },
    };
    let replay_buffer = match required_non_empty(&raw.replay_buffer, path, "replay_buffer") {
        Ok(s) => s,
        Err(e) => {
            return Err(e);
        },
    };
    let job = optional_non_empty(&raw.job);
    Ok(FilledFields { started_at, encounter, job, recording, replay_buffer })
}

/// What a metadata file says, before its videos have been looked for.
#[derive(Debug)]
pub struct JsonFields {
    pub started_at: Timestamp,
    pub encounter: String,
    pub job: Option<String>,
    pub recording: String,
    pub replay_buffer: String,
}

/// The fields with the start time that their text was read as. It must have
/// been read, and something must be left of the encounter as a folder name.
pub fn dated_fields(fields: FilledFields, started_at: Option<Timestamp>, path: &str) -> (r: Result<
    JsonFields,
    LimitcutError,
>)
    ensures
        match r {
            Ok(f) => {
                &&& started_at == Some(f.started_at)
                &&& normalized(fields.encounter@).len() > 0
                &&& f.encounter == fields.encounter
                &&& f.job == fields.job
                &&& f.recording == fields.recording
                &&& f.replay_buffer == fields.replay_buffer
            },
            Err(LimitcutError::JsonInvalidDatetime { path: p, value }) => started_at is None && p@
                == path@ && value == fields.started_at,
            Err(LimitcutError::JsonEncounterNameEmpty { path: p }) => started_at is Some
                && normalized(fields.encounter@).len() == 0 && p@ == path@,
            Err(_) => false,
        },
{
    match started_at {
        None => Err(
            LimitcutError::JsonInvalidDatetime { path: path.to_owned(), value: fields.started_at },
        ),
        Some(started_at) => {
            if normalize_encounter_name(fields.encounter.as_str()).as_str().is_empty() {
                Err(LimitcutError::JsonEncounterNameEmpty { path: path.to_owned() })
            } else {
                Ok(
                    JsonFields {
                        started_at,
                        encounter: fields.encounter,
                        job: fields.job,
                        recording: fields.recording,
                        replay_buffer: fields.replay_buffer,
                    },
                )
            }
        },
    }
}

/// Whether every field is filled that must be.
pub open spec fn all_filled(raw: PullToObsJson) -> bool {
    is_filled(raw.started_at) && is_filled(raw.encounter) && is_filled(raw.recording)
        && is_filled(raw.replay_buffer)
}

/// What a metadata file says, if it says all that it must.
pub fn validate_fields(raw: &PullToObsJson, path: &str) -> (r: Result<JsonFields, LimitcutError>)
    ensures
        r is Ok <==> all_filled(*raw) && is_rfc3339(trimmed(raw.started_at->0@)) && normalized(
            trimmed(raw.encounter->0@),
        ).len() > 0,
        match r {
            Ok(f) => {
                &&& f.started_at.wf()
                &&& f.started_at.date@ == date_of(trimmed(raw.started_at->0@))
                &&& f.started_at.clock@ == clock_of(trimmed(raw.started_at->0@))
                &&& f.encounter@ == trimmed(raw.encounter->0@)
                &&& f.recording@ == trimmed(raw.recording->0@)
                &&& f.replay_buffer@ == trimmed(raw.replay_buffer->0@)
                &&& match f.job {
                    Some(job) => optional_text(raw.job) == Some(job@),
                    None => optional_text(raw.job) is None,
                }
            },
            Err(e) => if !is_filled(raw.started_at) {
                is_field_error(e, raw.started_at, path@, "started_at"@)
            } else if !is_filled(raw.encounter) {
                is_field_error(e, raw.encounter, path@, "encounter"@)
            } else if !is_filled(raw.recording) {
                is_field_error(e, raw.recording, path@, "recording"@)
            } else if !is_filled(raw.replay_buffer) {
                is_field_error(e, raw.replay_buffer, path@, "replay_buffer"@)
            } else if !is_rfc3339(trimmed(raw.started_at->0@)) {
                e matches LimitcutError::JsonInvalidDatetime { path: p, value } && p@ == path@
                    && value@ == trimmed(raw.started_at->0@)
            } else {
                e matches LimitcutError::JsonEncounterNameEmpty { path: p } && p@ == path@
            },
        },
{
    match filled_fields(raw, path) {
        Ok(fields) => {
            let started_at = Timestamp::parse(fields.started_at.as_str());
            dated_fields(fields, started_at, path)
        },
        Err(e) => Err(e),
    }
}

// ── Files ────────────────────────────────────────────────────────────────

/// A metadata file must be there, and be a file.
pub fn validate_json_path<P>(path: &PathInfo<P>) -> (r: Result<(), LimitcutError>)
    ensures
        match r {
            Ok(_) => path.exists && path.is_file,
            Err(LimitcutError::JsonNotFound(p)) => !path.exists && p@ == path.text@,
            Err(LimitcutError::JsonNotAFile(p)) => path.exists && !path.is_file && p@
                == path.text@,
            Err(_) => false,
        },
{
    if !path.exists {
        return Err(LimitcutError::JsonNotFound(path.text.as_str().to_owned()));
    }
    if !path.is_file {
        return Err(LimitcutError::JsonNotAFile(path.text.as_str().to_owned()));
    }
    Ok(())
}

/// The error for a metadata file that could not be read.
pub fn unreadable_json(path: &str, error: &str) -> (r: LimitcutError)
    ensures
        r matches LimitcutError::JsonParseFailed { path: p, message } && p@ == path@ && message@
            == "could not read file: "@ + error@,
{
    LimitcutError::JsonParseFailed {
        path: path.to_owned(),
        message: cat2("could not read file: ", error),
    }
}

/// The directory that the names in a metadata file are relative to: that of
/// the file, or `here` where its path has no parent.
pub open spec fn home_of<P>(json: PathInfo<P>, here: P) -> P {
    match json.parent {
        Some(parent) => parent.path,
        None => here,
    }
}

/// The directory that the names in a metadata file are relative to.
pub fn home_dir<'a, P>(json: &'a PathInfo<P>, here: &'a P) -> (r: &'a P)
    ensures
        *r == home_of(*json, *here),
{
    match &json.parent {
        Some(parent) => &parent.path,
        None => here,
    }
}

/// Where a video is that a metadata file names.
pub fn video_path<'a, P>(json: &'a PathInfo<P>, here: &'a P, name: &str) -> (r: OutputPath<'a, P>)
    ensures
        r@ == (OutputView { dir: Some(home_of(*json, *here)), parts: seq![name@] }),
{
    let mut parts: Vec<String> = Vec::new();
    parts.push(name.to_owned());
    assert(texts(parts@) =~= seq![name@]);
    OutputPath { dir: Some(home_dir(json, here)), parts }
}

/// A video that a metadata file names must be there, and be a file.
pub fn validate_json_video<P>(json: &str, video: &PathInfo<P>) -> (r: Result<(), LimitcutError>)
    ensures
        match r {
            Ok(_) => video.exists && video.is_file,
            Err(e) => !(video.exists && video.is_file) && is_video_error(e, json@, *video),
        },
{
    if !video.exists {
        return Err(
            LimitcutError::JsonVideoNotFound {
                json: json.to_owned(),
                video: video.text.as_str().to_owned(),
            },
        );
    }
    if !video.is_file {
        return Err(LimitcutError::InputNotAFile(video.text.as_str().to_owned()));
    }
    Ok(())
}

/// Whether `e` is the error for a video that is not there or no file.
pub open spec fn is_video_error<P>(e: LimitcutError, json: Seq<char>, video: PathInfo<P>) -> bool {
    match e {
        LimitcutError::JsonVideoNotFound { json: j, video: v } => !video.exists && j@ == json && v@
            == video.text@,
        LimitcutError::InputNotAFile(v) => video.exists && !video.is_file && v@ == video.text@,
        _ => false,
    }
}

/// A metadata file whose fields and videos are all in order.
#[derive(Debug, Clone)]
pub struct ValidatedJson<P> {
    pub json_path: P,
    pub started_at: Timestamp,
    pub encounter: String,
    pub job: Option<String>,
    pub recording: P,
    pub replay_buffer: P,
}

/// The validated metadata, given what the file says and what was found where
/// its videos should be. The recording is looked at first.
pub fn load_and_validate<P>(
    path: PathInfo<P>,
    fields: JsonFields,
    recording: PathInfo<P>,
    replay_buffer: PathInfo<P>,
) -> (r: Result<ValidatedJson<P>, LimitcutError>)
    ensures
        match r {
            Ok(v) => {
                &&& recording.exists && recording.is_file
                &&& replay_buffer.exists && replay_buffer.is_file
                &&& v.json_path == path.path
                &&& v.started_at == fields.started_at
                &&& v.encounter == fields.encounter
                &&& v.job == fields.job
                &&& v.recording == recording.path
                &&& v.replay_buffer == replay_buffer.path
            },
            Err(e) => if !(recording.exists && recording.is_file) {
                is_video_error(e, path.text@, recording)
            } else {
                !(replay_buffer.exists && replay_buffer.is_file) && is_video_error(
                    e,
                    path.text@,
                    replay_buffer,
                )
            },
        },
{
    match validate_json_video(path.text.as_str(), &recording) {
        Ok(_) => {},
        Err(e) => {
            return Err(e);
        },
    }
    match validate_json_video(path.text.as_str(), &replay_buffer) {
        Ok(_) => {},
        Err(e) => {
            return Err(e);
        },
    }
    Ok(
        ValidatedJson {
            json_path: path.path,
            started_at: fields.started_at,
            encounter: fields.encounter,
            job: fields.job,
            recording: recording.path,
            replay_buffer: replay_buffer.path,
        },
    )
}

// ── Output ───────────────────────────────────────────────────────────────

/// The folder of a job, if anything is left of its name.
pub open spec fn job_folder(job: Option<String>) -> Seq<Seq<char>> {
    match job {
        Some(j) => if normalized(j@).len() > 0 {
            seq![normalized(j@)]
        } else {
            Seq::empty()
        },
        None => Seq::empty(),
    }
}

/// The folder of a job, if anything is left of its name.
pub(crate) fn push_job_folder(parts: &mut Vec<String>, job: &Option<String>)
    ensures
        texts(final(parts)@) == texts(old(parts)@) + job_folder(*job),
{
    let ghost before = parts@;
    if let Some(j) = job {
        let folder = normalize_encounter_name(j.as_str());
        if !folder.as_str().is_empty() {
            proof {
                lemma_texts_push(before, folder);
                assert(texts(before).push(folder@) =~= texts(before) + seq![folder@]);
            }
            parts.push(folder);
            return ;
        }
    }
    assert(texts(before) + Seq::<Seq<char>>::empty() =~= texts(before));
}

/// Where the combined video goes below the output directory:
/// `YYYY-MM-DD/<encounter>/<job>/HH-MM-SS.mp4`.
pub open spec fn output_parts<P>(json: ValidatedJson<P>) -> Seq<Seq<char>> {
    seq![json.started_at.date@, normalized(json.encounter@)] + job_folder(json.job) + seq![
        json.started_at.clock@ + ".mp4"@,
    ]
}

/// Where the combined video goes, with folder names made of the encounter and
/// the job.
pub fn derive_output_path<'a, P>(json: &ValidatedJson<P>, base_dir: &'a P) -> (r: OutputPath<
    'a,
    P,
>)
    ensures
        r@ == (OutputView { dir: Some(*base_dir), parts: output_parts(*json) }),
{
    let mut parts: Vec<String> = Vec::new();
    parts.push(json.started_at.date.as_str().to_owned());
    parts.push(normalize_encounter_name(json.encounter.as_str()));
    assert(texts(parts@) =~= seq![json.started_at.date@, normalized(json.encounter@)]);
    push_job_folder(&mut parts, &json.job);
    let file_name = cat2(json.started_at.clock.as_str(), ".mp4");
    proof {
        lemma_texts_push(parts@, file_name);
        assert(texts(parts@).push(file_name@) =~= output_parts(*json));
    }
    parts.push(file_name);
    OutputPath { dir: Some(base_dir), parts }
}

// ── Laws ─────────────────────────────────────────────────────────────────

/// No forbidden character, no white space, no control code.
pub open spec fn is_clean(s: Seq<char>) -> bool {
    forall|i: int|
        0 <= i < s.len() ==> !is_forbidden(#[trigger] s[i]) && !is_white(s[i]) && !is_control_char(
            s[i],
        )
}

/// No underscore behind another.
pub open spec fn is_squeezed(s: Seq<char>) -> bool {
    forall|i: int| 0 < i < s.len() ==> !(#[trigger] s[i] == '_' && s[i - 1] == '_')
}

/// Whether there is nothing left to normalise: no forbidden character, no white
/// space, no control code, no underscore at either end or behind another.
pub open spec fn is_normal_name(s: Seq<char>) -> bool {
    &&& is_clean(s)
    &&& is_squeezed(s)
    &&& s.len() > 0 ==> s[0] != '_' && s.last() != '_'
}

proof fn lemma_squeezed(s: Seq<char>)
    ensures
        is_clean(squeezed(s)),
        is_squeezed(squeezed(s)),
    decreases s.len(),
{
    if s.len() > 0 {
        lemma_squeezed(s.drop_last());
        let before = squeezed(s.drop_last());
        let after = squeezed(s);
        assert forall|i: int| 0 <= i < after.len() implies !is_forbidden(#[trigger] after[i])
            && !is_white(after[i]) && !is_control_char(after[i]) by {
            if i < before.len() {
                assert(after[i] == before[i]);
            }
        }
        assert forall|i: int| 0 < i < after.len() implies !(#[trigger] after[i] == '_' && after[i
            - 1] == '_') by {
            assert(after[i - 1] == before[i - 1]);
            if i < before.len() {
                assert(after[i] == before[i]);
            }
        }
    }
}

proof fn lemma_squeezed_same(s: Seq<char>)
    requires
        is_clean(s),
        is_squeezed(s),
    ensures
        squeezed(s) == s,
    decreases s.len(),
{
    if s.len() > 0 {
        let before = s.drop_last();
        assert forall|i: int| 0 < i < before.len() implies !(#[trigger] before[i] == '_'
            && before[i - 1] == '_') by {
            assert(before[i] == s[i] && before[i - 1] == s[i - 1]);
        }
        assert(is_clean(before)) by {
            assert forall|i: int| 0 <= i < before.len() implies !is_forbidden(#[trigger] before[i])
                && !is_white(before[i]) && !is_control_char(before[i]) by {
                assert(before[i] == s[i]);
            }
        }
        lemma_squeezed_same(before);
        let last = s.len() - 1;
        assert(s[last] == s.last());
        if before.len() > 0 {
            assert(before.last() == s[last - 1]);
        }
        assert(before.push(s.last()) =~= s);
    }
}

/// What a name is normalised to leaves nothing to normalise.
pub proof fn law_normalized_name_is_normal(name: Seq<char>)
    ensures
        is_normal_name(normalized(name)),
{
    let q = squeezed(trimmed(name));
    lemma_squeezed(trimmed(name));
    lemma_cut(q, Edge::Underscore);
    let n = normalized(name);
    let (i, j) = choose|i: int, j: int|
        0 <= i <= j <= q.len() && cut_both(q, Edge::Underscore) == #[trigger] q.subrange(i, j);
    assert forall|k: int| 0 <= k < n.len() implies !is_forbidden(#[trigger] n[k]) && !is_white(n[k])
        && !is_control_char(n[k]) by {
        assert(n[k] == q[i + k]);
    }
    assert forall|k: int| 0 < k < n.len() implies !(#[trigger] n[k] == '_' && n[k - 1] == '_') by {
        assert(n[k] == q[i + k] && n[k - 1] == q[i + k - 1]);
    }
}

/// A name with nothing to normalise is left as it is.
pub proof fn law_normal_name_is_kept(name: Seq<char>)
    requires
        is_normal_name(name),
    ensures
        normalized(name) == name,
{
    if name.len() > 0 {
        assert(name.last() == name[name.len() - 1]);
    }
    lemma_cut_nothing(name, Edge::White);
    lemma_squeezed_same(name);
    lemma_cut_nothing(name, Edge::Underscore);
}

/// To normalise twice is to normalise once.
pub proof fn law_normalize_idempotent(name: Seq<char>)
    ensures
        normalized(normalized(name)) == normalized(name),
{
    law_normalized_name_is_normal(name);
    law_normal_name_is_kept(normalized(name));
}

/// Whether a text can be one step of a path: there is something of it, and no
/// separator in it.
pub open spec fn is_single_step(s: Seq<char>) -> bool {
    s.len() > 0 && forall|i: int| 0 <= i < s.len() ==> #[trigger] s[i] != '/' && s[i] != '\\'
}

/// The two steps that do not lead down.
pub open spec fn is_dots(s: Seq<char>) -> bool {
    s == seq!['.'] || s == seq!['.', '.']
}

/// Whether a text can be one step down a path.
pub open spec fn is_step_down(s: Seq<char>) -> bool {
    is_single_step(s) && !is_dots(s)
}

/// Whether a job, where there is one, is not normalised to dots.
pub open spec fn is_plain_job(job: Option<String>) -> bool {
    job matches Some(j) ==> !is_dots(normalized(j@))
}

pub(crate) proof fn lemma_stamp_steps(t: Timestamp)
    requires
        t.wf(),
    ensures
        is_step_down(t.date@),
        is_step_down(t.clock@ + ".mp4"@),
{
    reveal_strlit(".mp4");
    let c = t.clock@ + ".mp4"@;
    assert(c.len() == t.clock@.len() + 4);
    assert forall|i: int| 0 <= i < c.len() implies #[trigger] c[i] != '/' && c[i] != '\\' by {
        if i < 8 {
            assert(c[i] == t.clock@[i]);
        } else {
            assert(c[i] == ".mp4"@[i - 8]);
        }
    }
}

pub(crate) proof fn lemma_job_steps(job: Option<String>)
    ensures
        forall|i: int|
            0 <= i < job_folder(job).len() ==> is_single_step(#[trigger] job_folder(job)[i]) && (
            is_plain_job(job) ==> is_step_down(job_folder(job)[i])),
{
    if job is Some {
        law_normalized_name_is_normal(job->0@);
    }
}

/// The output of a validated metadata file is three or four steps away from the
/// output directory. Each is a step down, where neither the encounter nor the
/// job is normalised to `.` or `..`.
pub proof fn law_output_parts_are_steps<P>(json: ValidatedJson<P>)
    requires
        json.started_at.wf(),
        normalized(json.encounter@).len() > 0,
    ensures
        3 <= output_parts(json).len() <= 4,
        forall|i: int|
            0 <= i < output_parts(json).len() ==> is_single_step(#[trigger] output_parts(json)[i]),
        !is_dots(normalized(json.encounter@)) && is_plain_job(json.job) ==> forall|i: int|
            0 <= i < output_parts(json).len() ==> is_step_down(#[trigger] output_parts(json)[i]),
{
    law_normalized_name_is_normal(json.encounter@);
    lemma_stamp_steps(json.started_at);
    lemma_job_steps(json.job);
}

/// The characters that cannot stand in the name of a folder are these nine.
pub proof fn law_forbidden_characters(c: char)
    ensures
        is_forbidden(c) <==> seq!['/', '\\', ':', '*', '?', '"', '<', '>', '|'].contains(c),
{
    let list = seq!['/', '\\', ':', '*', '?', '"', '<', '>', '|'];
    if is_forbidden(c) {
        assert(list[0] == '/' && list[1] == '\\' && list[2] == ':' && list[3] == '*');
        assert(list[4] == '?' && list[5] == '"' && list[6] == '<' && list[7] == '>');
        assert(list[8] == '|');
    }
}

proof fn lemma_squeezed_goes_on(a: Seq<char>, b: Seq<char>, c: Seq<char>)
    requires
        squeezed(a) == squeezed(b),
    ensures
        squeezed(a + c) == squeezed(b + c),
    decreases c.len(),
{
    if c.len() == 0 {
        assert(a + c =~= a && b + c =~= b);
    } else {
        lemma_squeezed_goes_on(a, b, c.drop_last());
        assert((a + c).drop_last() =~= a + c.drop_last());
        assert((b + c).drop_last() =~= b + c.drop_last());
        assert((a + c).last() == c.last() && (b + c).last() == c.last());
    }
}

proof fn lemma_underscore_before(s: Seq<char>)
    ensures
        ({
            let q = squeezed(s);
            squeezed(seq!['_'] + s) == if q.len() > 0 && q[0] == '_' {
                q
            } else {
                seq!['_'] + q
            }
        }),
    decreases s.len(),
{
    let t = seq!['_'] + s;
    if s.len() == 0 {
        assert(t.drop_last() =~= Seq::empty());
        assert(squeezed(t.drop_last()) =~= Seq::empty());
        assert(t.last() == '_');
        assert(folder_char('_') == Some('_'));
        assert(squeezed(t) =~= seq!['_']);
        assert(seq!['_'] + squeezed(s) =~= seq!['_']);
    } else {
        lemma_underscore_before(s.drop_last());
        assert(t.drop_last() =~= seq!['_'] + s.drop_last());
        assert(t.last() == s.last());
        let before = squeezed(s.drop_last());
        assert(squeezed(t) =~= if squeezed(s).len() > 0 && squeezed(s)[0] == '_' {
            squeezed(s)
        } else {
            seq!['_'] + squeezed(s)
        });
    }
}

proof fn lemma_cut_underscore_behind(q: Seq<char>)
    ensures
        cut_both(q.push('_'), Edge::Underscore) == cut_both(q, Edge::Underscore),
    decreases q.len(),
{
    let u = Edge::Underscore;
    let t = q.push('_');
    if q.len() == 0 {
        assert(t[0] == '_' && t.drop_first() =~= q);
        assert(cut_front(t, u) == cut_front(q, u));
    } else if q[0] == '_' {
        assert(t.drop_first() =~= q.drop_first().push('_'));
        lemma_cut_underscore_behind(q.drop_first());
        assert(cut_front(t, u) == cut_front(t.drop_first(), u));
        assert(cut_front(q, u) == cut_front(q.drop_first(), u));
    } else {
        assert(cut_front(t, u) == t && cut_front(q, u) == q);
        assert(t.drop_last() =~= q);
        assert(cut_back(t, u) == cut_back(q, u));
    }
}

/// An underscore or white space at an end makes no difference.
proof fn lemma_ends_are_cut(s: Seq<char>, c: char)
    requires
        folder_char(c) == Some('_'),
    ensures
        cut_both(squeezed(seq![c] + s), Edge::Underscore) == cut_both(
            squeezed(s),
            Edge::Underscore,
        ),
        cut_both(squeezed(s.push(c)), Edge::Underscore) == cut_both(squeezed(s), Edge::Underscore),
{
    let u = Edge::Underscore;
    let q = squeezed(s);
    assert(s.push(c).drop_last() =~= s);
    assert(q.len() > 0 && q.last() == '_' || squeezed(s.push(c)) == q.push('_'));
    lemma_cut_underscore_behind(q);
    let (one, other) = (seq![c], seq!['_']);
    assert(one.drop_last() =~= Seq::empty() && other.drop_last() =~= Seq::empty());
    assert(squeezed(one.drop_last()) =~= Seq::empty());
    assert(squeezed(one) =~= squeezed(other));
    lemma_squeezed_goes_on(one, other, s);
    lemma_underscore_before(s);
    let t = seq!['_'] + q;
    assert(t.drop_first() =~= q && t[0] == '_');
    assert(cut_front(t, u) == cut_front(q, u));
}

proof fn lemma_front_makes_no_difference(s: Seq<char>)
    ensures
        cut_both(squeezed(cut_front(s, Edge::White)), Edge::Underscore) == cut_both(
            squeezed(s),
            Edge::Underscore,
        ),
    decreases s.len(),
{
    if s.len() > 0 && is_white(s[0]) {
        lemma_front_makes_no_difference(s.drop_first());
        lemma_ends_are_cut(s.drop_first(), s[0]);
        assert(seq![s[0]] + s.drop_first() =~= s);
    }
}

proof fn lemma_back_makes_no_difference(s: Seq<char>)
    ensures
        cut_both(squeezed(cut_back(s, Edge::White)), Edge::Underscore) == cut_both(
            squeezed(s),
            Edge::Underscore,
        ),
    decreases s.len(),
{
    if s.len() > 0 && is_white(s.last()) {
        lemma_back_makes_no_difference(s.drop_last());
        lemma_ends_are_cut(s.drop_last(), s.last());
        assert(s.drop_last().push(s.last()) =~= s);
    }
}

proof fn lemma_trim_makes_no_difference(s: Seq<char>)
    ensures
        normalized(s) == cut_both(squeezed(s), Edge::Underscore),
{
    lemma_front_makes_no_difference(s);
    lemma_back_makes_no_difference(cut_front(s, Edge::White));
}

/// A name is normalised as if its forbidden characters, and its control codes
/// but for white space, were not there.
pub proof fn law_forbidden_characters_are_dropped(a: Seq<char>, c: char, b: Seq<char>)
    requires
        seq!['/', '\\', ':', '*', '?', '"', '<', '>', '|'].contains(c) || (is_control_char(c)
            && !is_white(c)),
    ensures
        normalized(a + seq![c] + b) == normalized(a + b),
{
    law_forbidden_characters(c);
    lemma_trim_makes_no_difference(a + seq![c] + b);
    lemma_trim_makes_no_difference(a + b);
    assert((a + seq![c]).drop_last() =~= a);
    lemma_squeezed_goes_on(a + seq![c], a, b);
}

/// White space in a name is normalised like an underscore, several underscores
/// in a row like one, and those at an end as if they were not there.
pub proof fn law_white_space_becomes_one_underscore(a: Seq<char>, c: char, b: Seq<char>)
    requires
        is_white(c),
    ensures
        normalized(a + seq![c] + b) == normalized(a + seq!['_'] + b),
        normalized(a + seq!['_', '_'] + b) == normalized(a + seq!['_'] + b),
        normalized(seq!['_'] + b) == normalized(b),
        normalized(a + seq!['_']) == normalized(a),
{
    lemma_trim_makes_no_difference(a + seq![c] + b);
    lemma_trim_makes_no_difference(a + seq!['_'] + b);
    lemma_trim_makes_no_difference(a + seq!['_', '_'] + b);
    lemma_trim_makes_no_difference(seq!['_'] + b);
    lemma_trim_makes_no_difference(a + seq!['_']);
    lemma_trim_makes_no_difference(a);
    lemma_trim_makes_no_difference(b);
    let one = a + seq!['_'];
    let two = a + seq!['_', '_'];
    assert(folder_char('_') == Some('_'));
    assert(folder_char(c) == Some('_'));
    assert((a + seq![c]).drop_last() =~= a && one.drop_last() =~= a);
    assert(two.drop_last() =~= one);
    assert(squeezed(two) == squeezed(one));
    lemma_squeezed_goes_on(a + seq![c], one, b);
    lemma_squeezed_goes_on(two, one, b);
    lemma_ends_are_cut(b, '_');
    lemma_ends_are_cut(a, '_');
    assert(a.push('_') =~= one);
}

/// A field is filled just where there is a character in it that is not white
/// space. What stands in it is what is left without the white space around it.
pub proof fn law_filled_fields(value: Option<String>)
    ensures
        is_filled(value) <==> value is Some && exists|i: int|
            0 <= i < value->0@.len() && !is_white(#[trigger] value->0@[i]),
        optional_text(value) is Some <==> is_filled(value),
        optional_text(value) is Some ==> optional_text(value)->0 == trimmed(value->0@),
{
    if value is Some {
        let s = value->0@;
        law_trim_of_white_space(s);
        assert(is_blank(s) <==> forall|i: int| 0 <= i < s.len() ==> is_white(#[trigger] s[i]));
    }
}

/// A field that is left out is told apart from one that holds nothing but
/// white space, and each is named with its file.
pub proof fn law_field_errors_are_told_apart(
    e: LimitcutError,
    value: Option<String>,
    path: Seq<char>,
    name: Seq<char>,
)
    requires
        is_field_error(e, value, path, name),
    ensures
        !is_filled(value),
        value is None ==> (e matches LimitcutError::JsonMissingField { path: p, field } && p@
            == path && field@ == name),
        value is Some ==> (e matches LimitcutError::JsonEmptyField { path: p, field } && p@ == path
            && field@ == name),
{
}

/// A video that is not there is told apart from one that is no file.
pub proof fn law_video_errors_are_told_apart<P>(
    e: LimitcutError,
    json: Seq<char>,
    video: PathInfo<P>,
)
    requires
        is_video_error(e, json, video),
    ensures
        !(video.exists && video.is_file),
        !video.exists ==> (e matches LimitcutError::JsonVideoNotFound { json: j, video: v } && j@
            == json && v@ == video.text@),
        video.exists ==> (e matches LimitcutError::InputNotAFile(v) && v@ == video.text@),
{
}

/// Where the combined video goes: below the date, the encounter and the job,
/// if anything is left of the job's name, in a file named by the time of day.
pub proof fn law_output_is_sorted_by_date_encounter_and_job<P>(json: ValidatedJson<P>)
    ensures
        ({
            let parts = output_parts(json);
            let by_job = json.job is Some && normalized(json.job->0@).len() > 0;
            &&& parts.len() == if by_job {
                4int
            } else {
                3
            }
            &&& parts[0] == json.started_at.date@
            &&& parts[1] == normalized(json.encounter@)
            &&& by_job ==> parts[2] == normalized(json.job->0@)
            &&& parts.last() == json.started_at.clock@ + ".mp4"@
        }),
{
}

/// Names in a metadata file are relative to where the file is, or to where the
/// program runs if its path has no parent.
pub proof fn law_home_of_a_metadata_file<P>(json: PathInfo<P>, here: P)
    ensures
        json.parent is Some ==> home_of(json, here) == json.parent->0.path,
        json.parent is None ==> home_of(json, here) == here,
{
}

/// The fields that must be filled are the start time, the encounter and the two
/// videos; the job may be left out.
pub proof fn law_required_fields(raw: PullToObsJson)
    ensures
        all_filled(raw) <==> is_filled(raw.started_at) && is_filled(raw.encounter) && is_filled(
            raw.recording,
        ) && is_filled(raw.replay_buffer),
{
}

} // verus!
