//! InstaPost descriptors: what they say, where their output goes, and what
//! becomes of them.

use vstd::prelude::*;

use crate::error::LimitcutError;
use crate::json_input::{
    is_dots, is_field_error, is_filled, is_plain_job, is_single_step, is_step_down, is_video_error,
    job_folder, law_normalized_name_is_normal, lemma_job_steps, lemma_stamp_steps,
    normalize_encounter_name, normalized, optional_non_empty,
    optional_text, push_job_folder, required_non_empty, validate_json_video,
};
use crate::listing::{is_listing, list_kept, DirEntry};
use crate::number::{dec, decimal, law_decimal_injective};
use crate::paths::{OutputPath, OutputView, PathInfo};
use crate::text::{
    cat2, cat3, cat4, cat5, chars_of, ends_with, lemma_texts_push, starts_with, text_from, texts,
    trimmed,
};
use crate::timestamp::{clock_of, date_of, is_rfc3339, Timestamp};

verus! {

// ── Fields ───────────────────────────────────────────────────────────────

/// The fields of a descriptor as they stand in it.
#[derive(Debug)]
pub struct InstapostJson {
    pub started_at: Option<String>,
    pub replay_buffer: Option<String>,
    pub job: Option<String>,
    pub encounter: Option<String>,
    pub territory_name: Option<String>,
    pub territory_type: Option<u32>,
    pub is_in_combat: Option<bool>,
    pub player_name: Option<String>,
}

/// What a descriptor says, before its video has been looked for.
#[derive(Debug)]
pub struct InstapostFields {
    pub started_at: Timestamp,
    pub replay_buffer: String,
    pub job: Option<String>,
    pub encounter: Option<String>,
    pub territory_name: Option<String>,
    pub territory_type: Option<u32>,
    pub is_in_combat: Option<bool>,
    pub player_name: Option<String>,
}

/// Whether an optional field came out as it stands in the descriptor.
pub open spec fn is_taken_from(out: Option<String>, raw: Option<String>) -> bool {
    match out {
        Some(s) => optional_text(raw) == Some(s@),
        None => optional_text(raw) is None,
    }
}

/// Whether the fields that need not be filled came out as they stand in the
/// descriptor.
pub open spec fn is_rest_of(f: InstapostFields, raw: InstapostJson) -> bool {
    &&& is_taken_from(f.job, raw.job)
    &&& is_taken_from(f.encounter, raw.encounter)
    &&& is_taken_from(f.territory_name, raw.territory_name)
    &&& is_taken_from(f.player_name, raw.player_name)
    &&& f.territory_type == raw.territory_type
    &&& f.is_in_combat == raw.is_in_combat
}

/// The texts of the start time and the video, the two fields that must be
/// filled; the first that is not makes the error.
pub fn filled_fields(raw: &InstapostJson, path: &str) -> (r: Result<
    (String, String),
    LimitcutError,
>)
    ensures
        match r {
            Ok((started_at, replay_buffer)) => {
                &&& is_filled(raw.started_at) && started_at@ == trimmed(raw.started_at->0@)
                &&& is_filled(raw.replay_buffer) && replay_buffer@ == trimmed(raw.replay_buffer->0@)
            },
            Err(e) => if !is_filled(raw.started_at) {
                is_field_error(e, raw.started_at, path@, "started_at"@)
            } else {
                !is_filled(raw.replay_buffer) && is_field_error(
                    e,
                    raw.replay_buffer,
                    path@,
                    "replay_buffer"@,
                )
            },
        },
{
    let started_at = match required_non_empty(&raw.started_at, path, "started_at") {
        Ok(s) => s,
        Err(e) => {
            return Err(e);
        },
    };
    match required_non_empty(&raw.replay_buffer, path, "replay_buffer") {
        Ok(replay_buffer) => Ok((started_at, replay_buffer)),
        Err(e) => Err(e),
    }
}

/// The fields of a descriptor with the start time that its text was read as,
/// which must have been read.
pub fn dated_fields(
    raw: &InstapostJson,
    started_at_text: String,
    replay_buffer: String,
    started_at: Option<Timestamp>,
    path: &str,
) -> (r: Result<InstapostFields, LimitcutError>)
    ensures
        match r {
            Ok(f) => {
                &&& started_at == Some(f.started_at)
                &&& f.replay_buffer == replay_buffer
                &&& is_rest_of(f, *raw)
            },
            Err(LimitcutError::JsonInvalidDatetime { path: p, value }) => started_at is None && p@
                == path@ && value == started_at_text,
            Err(_) => false,
        },
{
    match started_at {
        None => Err(
            LimitcutError::JsonInvalidDatetime { path: path.to_owned(), value: started_at_text },
        ),
        Some(started_at) => Ok(
            InstapostFields {
                started_at,
                replay_buffer,
                job: optional_non_empty(&raw.job),
                encounter: optional_non_empty(&raw.encounter),
                territory_name: optional_non_empty(&raw.territory_name),
                territory_type: raw.territory_type,
                is_in_combat: raw.is_in_combat,
                player_name: optional_non_empty(&raw.player_name),
            },
        ),
    }
}

/// What a descriptor says, if it says all that it must.
pub fn validate_fields(raw: &InstapostJson, path: &str) -> (r: Result<
    InstapostFields,
    LimitcutError,
>)
    ensures
        r is Ok <==> is_filled(raw.started_at) && is_filled(raw.replay_buffer) && is_rfc3339(
            trimmed(raw.started_at->0@),
        ),
        match r {
            Ok(f) => {
                &&& f.started_at.wf()
                &&& f.started_at.date@ == date_of(trimmed(raw.started_at->0@))
                &&& f.started_at.clock@ == clock_of(trimmed(raw.started_at->0@))
                &&& f.replay_buffer@ == trimmed(raw.replay_buffer->0@)
                &&& is_rest_of(f, *raw)
            },
            Err(e) => if !is_filled(raw.started_at) {
                is_field_error(e, raw.started_at, path@, "started_at"@)
            } else if !is_filled(raw.replay_buffer) {
                is_field_error(e, raw.replay_buffer, path@, "replay_buffer"@)
            } else {
                e matches LimitcutError::JsonInvalidDatetime { path: p, value } && p@ == path@
                    && value@ == trimmed(raw.started_at->0@)
            },
        },
{
    match filled_fields(raw, path) {
        Ok((text, replay_buffer)) => {
            let started_at = Timestamp::parse(text.as_str());
            dated_fields(raw, text, replay_buffer, started_at, path)
        },
        Err(e) => Err(e),
    }
}

/// A descriptor whose fields and video are all in order.
#[derive(Debug, Clone)]
pub struct ValidatedInstapostJson<P> {
    pub json_path: P,
    pub started_at: Timestamp,
    pub replay_buffer: P,
    pub job: Option<String>,
    pub encounter: Option<String>,
    pub territory_name: Option<String>,
    pub territory_type: Option<u32>,
    pub is_in_combat: Option<bool>,
    pub player_name: Option<String>,
}

/// The validated descriptor, given what it says and what was found where its
/// video should be.
pub fn load_and_validate<P>(
    path: PathInfo<P>,
    fields: InstapostFields,
    replay_buffer: PathInfo<P>,
) -> (r: Result<ValidatedInstapostJson<P>, LimitcutError>)
    ensures
        match r {
            Ok(v) => {
                &&& replay_buffer.exists && replay_buffer.is_file
                &&& v.json_path == path.path
                &&& v.started_at == fields.started_at
                &&& v.replay_buffer == replay_buffer.path
                &&& v.job == fields.job
                &&& v.encounter == fields.encounter
                &&& v.territory_name == fields.territory_name
                &&& v.territory_type == fields.territory_type
                &&& v.is_in_combat == fields.is_in_combat
                &&& v.player_name == fields.player_name
            },
            Err(e) => !(replay_buffer.exists && replay_buffer.is_file) && is_video_error(
                e,
                path.text@,
                replay_buffer,
            ),
        },
{
    match validate_json_video(path.text.as_str(), &replay_buffer) {
        Ok(_) => Ok(
            ValidatedInstapostJson {
                json_path: path.path,
                started_at: fields.started_at,
                replay_buffer: replay_buffer.path,
                job: fields.job,
                encounter: fields.encounter,
                territory_name: fields.territory_name,
                territory_type: fields.territory_type,
                is_in_combat: fields.is_in_combat,
                player_name: fields.player_name,
            },
        ),
        Err(e) => Err(e),
    }
}

// ── Labels ───────────────────────────────────────────────────────────────

/// The name of a territory of which no more than its number is known.
pub open spec fn territory_text(id: Option<u32>) -> Seq<char> {
    match id {
        Some(n) => "territory-"@ + dec(n as nat),
        None => "territory-unknown"@,
    }
}

fn territory(id: Option<u32>) -> (r: String)
    ensures
        r@ == territory_text(id),
{
    match id {
        Some(n) => cat2("territory-", decimal(n as u128).as_str()),
        None => "territory-unknown".to_owned(),
    }
}

impl<P> ValidatedInstapostJson<P> {
    /// The text of [`ValidatedInstapostJson::display_label`].
    pub open spec fn label(self) -> Seq<char> {
        match self.encounter {
            Some(encounter) => encounter@,
            None => match self.territory_name {
                Some(name) => name@,
                None => territory_text(self.territory_type),
            },
        }
    }

    /// The text of [`ValidatedInstapostJson::default_title`].
    pub open spec fn title(self) -> Seq<char> {
        match self.job {
            Some(job) => self.label() + "/"@ + job@ + " POV"@,
            None => self.label() + " POV"@,
        }
    }

    /// What the clip shows: the encounter, else the territory by its name,
    /// else the territory by its number.
    pub fn display_label(&self) -> (r: String)
        ensures
            r@ == self.label(),
    {
        match &self.encounter {
            Some(encounter) => encounter.as_str().to_owned(),
            None => match &self.territory_name {
                Some(name) => name.as_str().to_owned(),
                None => territory(self.territory_type),
            },
        }
    }

    /// The label and whose view it is.
    pub fn default_title(&self) -> (r: String)
        ensures
            r@ == self.title(),
    {
        let label = self.display_label();
        match &self.job {
            Some(job) => cat4(label.as_str(), "/", job.as_str(), " POV"),
            None => cat2(label.as_str(), " POV"),
        }
    }
}

// ── Output ───────────────────────────────────────────────────────────────

/// The folder for a descriptor's label, or for its territory's number where
/// nothing is left of the label.
pub open spec fn label_folder<P>(json: ValidatedInstapostJson<P>) -> Seq<char> {
    if normalized(json.label()).len() > 0 {
        normalized(json.label())
    } else {
        territory_text(json.territory_type)
    }
}

fn normalized_output_label<P>(json: &ValidatedInstapostJson<P>) -> (r: String)
    ensures
        r@ == label_folder(*json),
{
    let primary = normalize_encounter_name(json.display_label().as_str());
    if !primary.as_str().is_empty() {
        primary
    } else {
        territory(json.territory_type)
    }
}

/// Where the output goes below the output directory:
/// `instapost/YYYY-MM-DD/<label>/<job>/HH-MM-SS.mp4`.
pub open spec fn output_parts<P>(json: ValidatedInstapostJson<P>) -> Seq<Seq<char>> {
    seq!["instapost"@, json.started_at.date@, label_folder(json)] + job_folder(json.job) + seq![
        json.started_at.clock@ + ".mp4"@,
    ]
}

/// Where the output goes, with folder names made of the label and the job.
pub fn derive_output_path<'a, P>(
    json: &ValidatedInstapostJson<P>,
    base_dir: &'a P,
) -> (r: OutputPath<'a, P>)
    ensures
        r@ == (OutputView { dir: Some(*base_dir), parts: output_parts(*json) }),
{
    let mut parts: Vec<String> = Vec::new();
    parts.push("instapost".to_owned());
    parts.push(json.started_at.date.as_str().to_owned());
    parts.push(normalized_output_label(json));
    assert(texts(parts@) =~= seq!["instapost"@, json.started_at.date@, label_folder(*json)]);
    push_job_folder(&mut parts, &json.job);
    let file_name = cat2(json.started_at.clock.as_str(), ".mp4");
    proof {
        lemma_texts_push(parts@, file_name);
        assert(texts(parts@).push(file_name@) =~= output_parts(*json));
    }
    parts.push(file_name);
    OutputPath { dir: Some(base_dir), parts }
}

// ── Watching a directory ─────────────────────────────────────────────────

/// Whether a path names a descriptor: a file named `instapost_….json`.
pub open spec fn is_descriptor<P>(path: PathInfo<P>) -> bool {
    &&& path.is_file
    &&& path.file_name is Some
    &&& "instapost_"@.is_prefix_of(path.file_name->0@)
    &&& ".json"@.is_suffix_of(path.file_name->0@)
}

/// Whether a path names a descriptor: a file named `instapost_….json`.
pub fn is_instapost_json_path<P>(path: &PathInfo<P>) -> (r: bool)
    ensures
        r == is_descriptor(*path),
{
    if !path.is_file {
        return false;
    }
    match &path.file_name {
        Some(name) => starts_with(name.as_str(), "instapost_") && ends_with(
            name.as_str(),
            ".json",
        ),
        None => false,
    }
}

/// The descriptors among the entries of a directory, by position, in the
/// order of their names.
///
/// `read` is what came of reading the directory; it is not looked at where
/// there is no directory.
pub fn list_instapost_json_files<P>(
    dir: &PathInfo<P>,
    read: Result<&Vec<DirEntry<P>>, &str>,
) -> (r: Result<Vec<usize>, LimitcutError>)
    ensures
        match r {
            Ok(order) => {
                &&& dir.exists && dir.is_dir
                &&& read is Ok
                &&& is_listing(order@, read->Ok_0@, |e: DirEntry<P>| is_descriptor(e.info))
            },
            Err(LimitcutError::InstapostWatchDirNotFound(p)) => !dir.exists && p@ == dir.text@,
            Err(LimitcutError::InstapostWatchDirNotADir(p)) => dir.exists && !dir.is_dir && p@
                == dir.text@,
            Err(LimitcutError::InstapostWatchDirReadFailed { path, source }) => {
                &&& dir.exists && dir.is_dir
                &&& read is Err && source@ == read->Err_0@
                &&& path@ == dir.text@
            },
            Err(_) => false,
        },
{
    if !dir.exists {
        return Err(LimitcutError::InstapostWatchDirNotFound(dir.text.as_str().to_owned()));
    }
    if !dir.is_dir {
        return Err(LimitcutError::InstapostWatchDirNotADir(dir.text.as_str().to_owned()));
    }
    let entries = match read {
        Ok(entries) => entries,
        Err(source) => {
            return Err(
                LimitcutError::InstapostWatchDirReadFailed {
                    path: dir.text.as_str().to_owned(),
                    source: source.to_owned(),
                },
            );
        },
    };
    let ghost chosen = |e: DirEntry<P>| is_descriptor(e.info);
    let mut keep: Vec<bool> = Vec::new();
    let mut i: usize = 0;
    while i < entries.len()
        invariant
            i <= entries.len(),
            keep.len() == i,
            chosen == (|e: DirEntry<P>| is_descriptor(e.info)),
            forall|k: int| 0 <= k < i ==> #[trigger] keep@[k] == chosen(entries@[k]),
        decreases entries.len() - i,
    {
        keep.push(is_instapost_json_path(&entries[i].info));
        i += 1;
    }
    Ok(list_kept(entries, &keep, Ghost(chosen)))
}

// ── What becomes of a descriptor ─────────────────────────────────────────

/// A name cut in two at its last full stop, if it has one.
pub open spec fn split_at_last_dot(s: Seq<char>) -> Option<(Seq<char>, Seq<char>)>
    decreases s.len(),
{
    if s.len() == 0 {
        None
    } else if s.last() == '.' {
        Some((s.drop_last(), Seq::empty()))
    } else {
        match split_at_last_dot(s.drop_last()) {
            Some((stem, ext)) => Some((stem, ext.push(s.last()))),
            None => None,
        }
    }
}

/// The name with a number before its extension, or at its end where it has none.
pub open spec fn numbered(name: Seq<char>, index: nat) -> Seq<char> {
    match split_at_last_dot(name) {
        Some((stem, ext)) => stem + "."@ + dec(index) + "."@ + ext,
        None => name + "."@ + dec(index),
    }
}

/// The name to try for a descriptor that is moved away, where the first
/// `index` names are taken: its own, then the same with a number in it.
pub open spec fn status_name(name: Seq<char>, index: nat) -> Seq<char> {
    if index == 0 {
        name
    } else {
        numbered(name, index)
    }
}

fn last_dot(cs: &Vec<char>) -> (r: Option<usize>)
    ensures
        match r {
            Some(i) => i < cs.len() && split_at_last_dot(cs@) == Some(
                (cs@.subrange(0, i as int), cs@.subrange(i + 1, cs@.len() as int)),
            ),
            None => split_at_last_dot(cs@) is None,
        },
{
    let mut i: usize = 0;
    let mut found: Option<usize> = None;
    while i < cs.len()
        invariant
            i <= cs.len(),
            match found {
                Some(d) => d < i && split_at_last_dot(cs@.take(i as int)) == Some(
                    (cs@.subrange(0, d as int), cs@.subrange(d + 1, i as int)),
                ),
                None => split_at_last_dot(cs@.take(i as int)) is None,
            },
        decreases cs.len() - i,
    {
        proof {
            let now = cs@.take(i + 1);
            assert(now.drop_last() =~= cs@.take(i as int));
            assert(now.last() == cs@[i as int]);
            assert(cs@.take(i as int) =~= cs@.subrange(0, i as int));
            if found is Some {
                let d = found->0;
                assert(cs@.subrange(d + 1, i as int).push(cs@[i as int]) =~= cs@.subrange(
                    d + 1,
                    i + 1,
                ));
            }
            assert(cs@.subrange(i + 1, i + 1) =~= Seq::empty());
        }
        if cs[i] == '.' {
            found = Some(i);
        }
        i += 1;
    }
    assert(cs@.take(i as int) =~= cs@);
    found
}

/// The name to try for a descriptor that is moved into a status directory,
/// where the names for all smaller indices are taken.
pub fn status_file_name(file_name: &str, index: u64) -> (r: String)
    ensures
        r@ == status_name(file_name@, index as nat),
{
    if index == 0 {
        return file_name.to_owned();
    }
    let number = decimal(index as u128);
    let cs = chars_of(file_name);
    match last_dot(&cs) {
        Some(i) => {
            let stem = text_from(&cs, 0, i);
            let ext = text_from(&cs, i + 1, cs.len());
            cat5(stem.as_str(), ".", number.as_str(), ".", ext.as_str())
        },
        None => cat3(file_name, ".", number.as_str()),
    }
}

/// What a search for a free name does next.
#[derive(Debug, Clone, Copy, PartialEq, Eq, Structural)]
pub enum NameStep {
    /// See whether the name for an index is taken.
    Try(u64),
    /// Take the name for an index.
    Take(u64),
    /// Give up: there are no more names to try.
    Exhausted,
}

/// What a search does next, given whether the name for `index` is taken.
pub open spec fn name_after(index: u64, is_taken: bool) -> NameStep {
    if !is_taken {
        NameStep::Take(index)
    } else if index < u64::MAX {
        NameStep::Try((index + 1) as u64)
    } else {
        NameStep::Exhausted
    }
}

/// What a search for a free name does next, given whether the name for `index`
/// is taken.
pub fn name_step(index: u64, is_taken: bool) -> (r: NameStep)
    ensures
        r == name_after(index, is_taken),
{
    if !is_taken {
        NameStep::Take(index)
    } else if index < u64::MAX {
        NameStep::Try(index + 1)
    } else {
        NameStep::Exhausted
    }
}

/// Where a search for a free name for `name` is after `n` steps, in a directory
/// that holds the names of `taken`.
pub open spec fn name_search(name: Seq<char>, taken: Set<Seq<char>>, n: nat) -> NameStep
    decreases n,
{
    if n == 0 {
        NameStep::Try(0)
    } else {
        match name_search(name, taken, (n - 1) as nat) {
            NameStep::Try(i) => name_after(i, taken.contains(status_name(name, i as nat))),
            step => step,
        }
    }
}

/// The name of the file that says why a descriptor failed.
pub fn failure_marker_name(file_name: &str) -> (r: String)
    ensures
        r@ == file_name@ + ".error.txt"@,
{
    cat2(file_name, ".error.txt")
}

/// The contents of the file that says why a descriptor failed.
pub fn failure_marker_text(error: &str) -> (r: String)
    ensures
        r@ == error@ + "\n"@,
{
    cat2(error, "\n")
}

// ── Laws ─────────────────────────────────────────────────────────────────

/// No name is tried twice, so that the search for a free one goes on to new
/// names until it finds one.
pub proof fn law_status_names_differ(name: Seq<char>, a: nat, b: nat)
    requires
        a != b,
    ensures
        status_name(name, a) != status_name(name, b),
{
    if a == 0 {
        lemma_numbered_is_longer(name, b);
    } else if b == 0 {
        lemma_numbered_is_longer(name, a);
    } else if numbered(name, a) == numbered(name, b) {
        let (front, back) = match split_at_last_dot(name) {
            Some((stem, ext)) => (stem + "."@, "."@ + ext),
            None => (name + "."@, Seq::empty()),
        };
        assert(numbered(name, a) =~= front + dec(a) + back);
        assert(numbered(name, b) =~= front + dec(b) + back);
        let whole = numbered(name, a);
        let from = front.len() as int;
        let to = whole.len() - back.len();
        assert(dec(a) =~= whole.subrange(from, to));
        assert(dec(b) =~= whole.subrange(from, to));
        law_decimal_injective(a, b);
    }
}

/// The search takes the first name that is free: one that is not taken, while
/// the names for all smaller indices are.
pub proof fn law_first_free_name_is_taken(
    name: Seq<char>,
    taken: Set<Seq<char>>,
    first: u64,
    n: nat,
)
    requires
        !taken.contains(status_name(name, first as nat)),
        forall|i: nat| i < first ==> taken.contains(#[trigger] status_name(name, i)),
    ensures
        n <= first ==> name_search(name, taken, n) == NameStep::Try(n as u64),
        n > first ==> name_search(name, taken, n) == NameStep::Take(first),
    decreases n,
{
    if n > 0 {
        let before = (n - 1) as nat;
        law_first_free_name_is_taken(name, taken, first, before);
        if n <= first {
            assert(taken.contains(status_name(name, before)));
        }
    }
}

/// Whatever name the search takes is free, and none that it could have taken
/// before is.
pub proof fn law_search_takes_a_free_name(name: Seq<char>, taken: Set<Seq<char>>, n: nat)
    ensures
        match name_search(name, taken, n) {
            NameStep::Try(i) => n == i && forall|j: nat|
                j < i ==> taken.contains(#[trigger] status_name(name, j)),
            NameStep::Take(i) => !taken.contains(status_name(name, i as nat)) && forall|j: nat|
                j < i ==> taken.contains(#[trigger] status_name(name, j)),
            NameStep::Exhausted => forall|j: nat|
                j <= u64::MAX ==> taken.contains(#[trigger] status_name(name, j)),
        },
    decreases n,
{
    if n > 0 {
        law_search_takes_a_free_name(name, taken, (n - 1) as nat);
    }
}

proof fn lemma_split_lengths(s: Seq<char>)
    ensures
        split_at_last_dot(s) matches Some((stem, ext)) ==> stem.len() + 1 + ext.len() == s.len(),
    decreases s.len(),
{
    if s.len() > 0 && s.last() != '.' {
        lemma_split_lengths(s.drop_last());
    }
}

proof fn lemma_numbered_is_longer(name: Seq<char>, n: nat)
    ensures
        numbered(name, n).len() > name.len(),
{
    reveal_strlit(".");
    lemma_split_lengths(name);
}

/// The output of a validated descriptor is four or five steps away from the
/// output directory, the first to the `instapost` folder. Each is a step down,
/// where neither the label nor the job is normalised to `.` or `..`.
pub proof fn law_output_parts_are_steps<P>(json: ValidatedInstapostJson<P>)
    requires
        json.started_at.wf(),
    ensures
        4 <= output_parts(json).len() <= 5,
        output_parts(json)[0] == "instapost"@,
        forall|i: int|
            0 <= i < output_parts(json).len() ==> is_single_step(#[trigger] output_parts(json)[i]),
        !is_dots(normalized(json.label())) && is_plain_job(json.job) ==> forall|i: int|
            0 <= i < output_parts(json).len() ==> is_step_down(#[trigger] output_parts(json)[i]),
{
    reveal_strlit("instapost");
    assert("instapost"@.len() == 9);
    assert(is_step_down("instapost"@));
    law_normalized_name_is_normal(json.label());
    lemma_territory_step(json.territory_type);
    lemma_stamp_steps(json.started_at);
    lemma_job_steps(json.job);
}

proof fn lemma_territory_step(id: Option<u32>)
    ensures
        is_step_down(territory_text(id)),
{
    reveal_strlit("territory-");
    reveal_strlit("territory-unknown");
    assert("territory-"@.len() == 10);
    assert("territory-unknown"@.len() == 17);
    if id is Some {
        let n = id->0 as nat;
        crate::number::lemma_dec(n);
        let t = territory_text(id);
        assert forall|i: int| 0 <= i < t.len() implies #[trigger] t[i] != '/' && t[i] != '\\' by {
            if i < "territory-"@.len() {
                assert(t[i] == "territory-"@[i]);
            } else {
                assert(crate::number::is_digit(dec(n)[i - "territory-"@.len()]));
            }
        }
    }
}

/// The last full stop of a name is the one that is taken for that of its
/// extension: a number goes before it, or behind the name where there is none.
pub proof fn law_number_goes_before_the_extension(stem: Seq<char>, ext: Seq<char>, index: nat)
    requires
        index > 0,
        !ext.contains('.'),
    ensures
        status_name(stem + "."@ + ext, index) == stem + "."@ + dec(index) + "."@ + ext,
        status_name(ext, index) == ext + "."@ + dec(index),
        status_name(stem, 0) == stem,
{
    assert("."@ =~= seq!['.']) by {
        reveal_strlit(".");
    }
    lemma_split_behind(stem, ext);
}

proof fn lemma_split_behind(stem: Seq<char>, ext: Seq<char>)
    requires
        !ext.contains('.'),
    ensures
        split_at_last_dot(stem + seq!['.'] + ext) == Some((stem, ext)),
        split_at_last_dot(ext) is None,
    decreases ext.len(),
{
    let s = stem + seq!['.'] + ext;
    if ext.len() == 0 {
        assert(s.last() == '.');
        assert(s.drop_last() =~= stem);
        assert(ext =~= Seq::empty());
    } else {
        let rest = ext.drop_last();
        assert(ext.contains(ext.last())) by {
            assert(ext[ext.len() - 1] == ext.last());
        }
        assert(!rest.contains('.')) by {
            if rest.contains('.') {
                let i = choose|i: int| 0 <= i < rest.len() && rest[i] == '.';
                assert(ext[i] == '.');
            }
        }
        lemma_split_behind(stem, rest);
        assert(s.drop_last() =~= stem + seq!['.'] + rest);
        assert(s.last() == ext.last());
        assert(rest.push(ext.last()) =~= ext);
    }
}

/// A search for a free name takes a name that is free, and goes on to the next
/// where it is not, to the last number there is.
pub proof fn law_next_name(index: u64)
    ensures
        name_after(index, false) == NameStep::Take(index),
        index < 0xffff_ffff_ffff_ffff ==> (name_after(index, true) matches NameStep::Try(next)
            && next == index + 1),
        index == 0xffff_ffff_ffff_ffff ==> name_after(index, true) is Exhausted,
{
}

/// What a clip is called: by its encounter, else by its territory's name, else
/// by its territory's number. The title says whose view it is.
pub proof fn law_label_and_title<P>(json: ValidatedInstapostJson<P>)
    ensures
        json.encounter is Some ==> json.label() == json.encounter->0@,
        json.encounter is None && json.territory_name is Some ==> json.label()
            == json.territory_name->0@,
        json.encounter is None && json.territory_name is None && json.territory_type is Some
            ==> json.label() == "territory-"@ + dec(json.territory_type->0 as nat),
        json.encounter is None && json.territory_name is None && json.territory_type is None
            ==> json.label() == "territory-unknown"@,
        json.job is Some ==> json.title() == json.label() + "/"@ + json.job->0@ + " POV"@,
        json.job is None ==> json.title() == json.label() + " POV"@,
{
}

/// Where the output of a descriptor goes: below `instapost`, the date, the
/// label and the job, if anything is left of the job's name, in a file named by
/// the time of day. Where nothing is left of the label, the territory's number
/// stands for it.
pub proof fn law_output_is_sorted_by_date_label_and_job<P>(json: ValidatedInstapostJson<P>)
    ensures
        ({
            let parts = output_parts(json);
            let by_job = json.job is Some && normalized(json.job->0@).len() > 0;
            &&& parts.len() == if by_job {
                5int
            } else {
                4
            }
            &&& parts[0] == "instapost"@
            &&& parts[1] == json.started_at.date@
            &&& normalized(json.label()).len() > 0 ==> parts[2] == normalized(json.label())
            &&& normalized(json.label()).len() == 0 ==> parts[2]
                == if json.territory_type is Some {
                "territory-"@ + dec(json.territory_type->0 as nat)
            } else {
                "territory-unknown"@
            }
            &&& by_job ==> parts[3] == normalized(json.job->0@)
            &&& parts.last() == json.started_at.clock@ + ".mp4"@
        }),
{
}

/// A descriptor is a file whose name begins with `instapost_` and ends in
/// `.json`.
pub proof fn law_names_of_descriptors<P>(path: PathInfo<P>)
    ensures
        path.file_name is None ==> !is_descriptor(path),
        path.file_name is Some ==> (is_descriptor(path) <==> path.is_file && path.file_name->0@.len() >= 10
            && path.file_name->0@.take(10) == "instapost_"@ && path.file_name->0@.skip(
            path.file_name->0@.len() - 5,
        ) == ".json"@),
{
    let name = path.file_name->0@;
    reveal_strlit("instapost_");
    reveal_strlit(".json");
    assert("instapost_"@.len() == 10 && ".json"@.len() == 5);
    if name.len() >= 10 {
        assert(name.take(10) =~= name.subrange(0, 10));
        assert(name.skip(name.len() - 5) =~= name.subrange(name.len() - 5, name.len() as int));
    }
}

/// The fields that need not be filled come out without the white space around
/// them, and not at all where they hold nothing else.
pub proof fn law_rest_of_a_descriptor(f: InstapostFields, raw: InstapostJson)
    requires
        is_rest_of(f, raw),
    ensures
        f.job is Some <==> is_filled(raw.job),
        f.job is Some ==> f.job->0@ == trimmed(raw.job->0@),
        f.encounter is Some <==> is_filled(raw.encounter),
        f.encounter is Some ==> f.encounter->0@ == trimmed(raw.encounter->0@),
        f.territory_name is Some <==> is_filled(raw.territory_name),
        f.territory_name is Some ==> f.territory_name->0@ == trimmed(raw.territory_name->0@),
        f.player_name is Some <==> is_filled(raw.player_name),
        f.player_name is Some ==> f.player_name->0@ == trimmed(raw.player_name->0@),
        f.territory_type == raw.territory_type,
        f.is_in_combat == raw.is_in_combat,
{
}

} // verus!
