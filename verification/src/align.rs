//! Aligning the entity streams of a Wikidata JSON dump and an N-Triples
//! dump, and deciding which entities need an update.

use vstd::prelude::*;
use crate::entity::{pack, spec_pack};
use crate::text::{pair_view, same_text, views, LineError, ReadError};
use crate::json::{read_update_fields, spec_update_fields, UpdateFields};

verus! {

/// The packed integer of an entity id such as `Q42`: its number times four
/// plus the code of its kind letter.
pub open spec fn spec_entity_to_int(entity: Seq<char>) -> Option<u64> {
    if entity.len() == 0 {
        None
    } else {
        spec_pack(entity[0], entity.drop_first())
    }
}

/// Packs an entity id such as `Q42` into an integer (`42 * 4 + 0`).
/// `None` exactly for the ids that the packing rejects: an empty id, a first
/// letter other than `Q`, `P`, `L`, a rest that is no `u64`, or a packed value
/// that does not fit in 64 bits. `None` marks malformed input: the tools
/// stop on it instead of going on.
pub fn entity_to_int(entity: &str) -> (r: Option<u64>)
    ensures
        r == spec_entity_to_int(entity@),
{
    let n = entity.unicode_len();
    if n == 0 {
        return None;
    }
    let code = entity.get_char(0);
    let rest = entity.substring_char(1, n);
    assert(rest@ =~= entity@.drop_first());
    pack(code, rest)
}

/// Takes the line that a line stream handed out (`None` at its end) and
/// returns its first two comma-separated fields; `Err` when the line has no
/// second field. The error marks malformed input: the tools stop on it
/// instead of going on.
pub fn next_line(line: Option<String>) -> (r: Result<Option<(String, String)>, LineError>)
    ensures
        match line {
            None => r == Ok::<Option<(String, String)>, LineError>(None),
            Some(l) => match crate::text::spec_split_pair(l@) {
                Some(p) => match r {
                    Ok(Some(q)) => pair_view(q) == p,
                    _ => false,
                },
                None => r == Err::<Option<(String, String)>, LineError>(LineError::MissingField),
            },
        },
{
    match line {
        None => Ok(None),
        Some(l) => match crate::text::split_pair(l.as_str()) {
            Some(p) => Ok(Some(p)),
            None => Err(LineError::MissingField),
        },
    }
}

/// The entity that a line of an id file names in its first field.
pub open spec fn entity_of_line(line: Seq<char>) -> Result<u64, LineError> {
    match crate::text::spec_split_pair(line) {
        None => Err(LineError::MissingField),
        Some((e, _)) => match spec_entity_to_int(e) {
            Some(v) => Ok(v),
            None => Err(LineError::InvalidEntity),
        },
    }
}

/// The set `ids` after adding the entity of each line, in order.
pub open spec fn ids_after(ids: Set<u64>, lines: Seq<Seq<char>>) -> Set<u64>
    decreases lines.len(),
{
    if lines.len() == 0 {
        ids
    } else {
        let s = ids_after(ids, lines.drop_last());
        match entity_of_line(lines.last()) {
            Ok(v) => s.insert(v),
            Err(_) => s,
        }
    }
}

/// Reads the lines of an id file (`entity,anything`) into the set of their
/// packed entity ids. The error marks malformed input: the tools stop on it
/// instead of going on. On error, the ids of the lines before the bad line
/// are in the set.
pub fn read_file(ids: &mut std::collections::HashSet<u64>, lines: &Vec<String>) -> (r: Result<
    (),
    ReadError,
>)
    ensures
        match r {
            Ok(()) => {
                &&& forall|i: int| 0 <= i < lines@.len() ==> #[trigger] entity_of_line(lines@[i]@) is Ok
                &&& final(ids)@ == ids_after(old(ids)@, views(lines@))
            },
            Err(e) => {
                &&& e.line < lines@.len()
                &&& entity_of_line(lines@[e.line as int]@) == Err::<u64, LineError>(e.kind)
                &&& forall|i: int| 0 <= i < e.line ==> #[trigger] entity_of_line(lines@[i]@) is Ok
                &&& final(ids)@ == ids_after(old(ids)@, views(lines@).take(e.line as int))
            },
        },
{
    let mut i: usize = 0;
    while i < lines.len()
        invariant
            i <= lines@.len(),
            forall|j: int| 0 <= j < i ==> #[trigger] entity_of_line(lines@[j]@) is Ok,
            ids@ == ids_after(old(ids)@, views(lines@).take(i as int)),
        decreases lines@.len() - i,
    {
        let ghost ls = views(lines@);
        assert(ls.take(i + 1).drop_last() =~= ls.take(i as int));
        assert(ls.take(i + 1).last() == lines@[i as int]@);
        let kind = match crate::text::split_pair(lines[i].as_str()) {
            None => Some(LineError::MissingField),
            Some((e, _)) => match entity_to_int(e.as_str()) {
                None => Some(LineError::InvalidEntity),
                Some(v) => {
                    ids.insert(v);
                    None
                },
            },
        };
        if let Some(k) = kind {
            return Err(ReadError { line: i, kind: k });
        }
        i = i + 1;
    }
    assert(views(lines@).take(i as int) =~= views(lines@));
    Ok(())
}

/// The revision and date that a line of a revision file (`rev,date`) holds.
pub open spec fn rev_of_line(line: Seq<char>) -> Result<(u64, Seq<char>), LineError> {
    match crate::text::spec_split_pair(line) {
        None => Err(LineError::MissingField),
        Some((r, d)) => match crate::number::spec_parse_u64(r) {
            Some(v) => Ok((v, d)),
            None => Err(LineError::InvalidNumber),
        },
    }
}

/// The revisions by date after recording the revision of each line, in order.
pub open spec fn revs_after(m: Map<Seq<char>, Set<u64>>, lines: Seq<Seq<char>>) -> Map<
    Seq<char>,
    Set<u64>,
>
    decreases lines.len(),
{
    if lines.len() == 0 {
        m
    } else {
        let m2 = revs_after(m, lines.drop_last());
        match rev_of_line(lines.last()) {
            Ok((r, d)) => m2.insert(d, crate::date_index::revs_of(m2, d).insert(r)),
            Err(_) => m2,
        }
    }
}

/// Reads the lines of a revision file (`rev,date`) into the revisions known
/// for each date. The error marks malformed input: the tools stop on it
/// instead of going on. On error, the lines before the bad line are recorded.
pub fn read_revisions(revs: &mut crate::date_index::DateRevisions, lines: &Vec<String>) -> (r:
    Result<(), ReadError>)
    requires
        old(revs).wf(),
    ensures
        final(revs).wf(),
        match r {
            Ok(()) => {
                &&& forall|i: int| 0 <= i < lines@.len() ==> #[trigger] rev_of_line(lines@[i]@) is Ok
                &&& final(revs)@ == revs_after(old(revs)@, views(lines@))
            },
            Err(e) => {
                &&& e.line < lines@.len()
                &&& rev_of_line(lines@[e.line as int]@) matches Err(k) && k == e.kind
                &&& forall|i: int| 0 <= i < e.line ==> #[trigger] rev_of_line(lines@[i]@) is Ok
                &&& final(revs)@ == revs_after(old(revs)@, views(lines@).take(e.line as int))
            },
        },
{
    let mut i: usize = 0;
    while i < lines.len()
        invariant
            i <= lines@.len(),
            revs.wf(),
            forall|j: int| 0 <= j < i ==> #[trigger] rev_of_line(lines@[j]@) is Ok,
            revs@ == revs_after(old(revs)@, views(lines@).take(i as int)),
        decreases lines@.len() - i,
    {
        let ghost ls = views(lines@);
        assert(ls.take(i + 1).drop_last() =~= ls.take(i as int));
        assert(ls.take(i + 1).last() == lines@[i as int]@);
        let kind = match crate::text::split_pair(lines[i].as_str()) {
            None => Some(LineError::MissingField),
            Some((r, d)) => match crate::number::parse_u64(r.as_str()) {
                None => Some(LineError::InvalidNumber),
                Some(v) => {
                    revs.add(d.as_str(), v);
                    None
                },
            },
        };
        if let Some(k) = kind {
            return Err(ReadError { line: i, kind: k });
        }
        i = i + 1;
    }
    assert(views(lines@).take(i as int) =~= views(lines@));
    Ok(())
}


/// The record that tells to skip the JSON entity `id`.
pub open spec fn skip_json_line(id: Seq<char>) -> Seq<char> {
    "{\"type\":\"skip_json\",\"id\":\""@ + id + "\"}"@
}

/// The record that tells to skip the N-Triples entity `id`.
pub open spec fn skip_nt_line(id: Seq<char>) -> Seq<char> {
    "{\"type\":\"skip_nt\",\"id\":\""@ + id + "\"}"@
}

/// The record that tells that the two streams hold `nt` and `json` in
/// different orders.
pub open spec fn misorder_line(nt: Seq<char>, json: Seq<char>) -> Seq<char> {
    "{\"type\":\"misorder\",\"nt\":\""@ + nt + "\", \"json\":\""@ + json + "\"}"@
}

/// The record that tells that entity `id` needs an update to `date`.
pub open spec fn need_update_line(id: Seq<char>, date: Seq<char>) -> Seq<char> {
    "{\"type\":\"need_update\",\"id\":\""@ + id + "\",\"date\":\""@ + date + "\"}"@
}

fn skip_json_record(id: &str) -> (r: String)
    ensures
        r@ == skip_json_line(id@),
{
    let mut s = "{\"type\":\"skip_json\",\"id\":\"".to_owned();
    s.append(id);
    s.append("\"}");
    s
}

fn skip_nt_record(id: &str) -> (r: String)
    ensures
        r@ == skip_nt_line(id@),
{
    let mut s = "{\"type\":\"skip_nt\",\"id\":\"".to_owned();
    s.append(id);
    s.append("\"}");
    s
}

fn misorder_record(nt: &str, json: &str) -> (r: String)
    ensures
        r@ == misorder_line(nt@, json@),
{
    let mut s = "{\"type\":\"misorder\",\"nt\":\"".to_owned();
    s.append(nt);
    s.append("\", \"json\":\"");
    s.append(json);
    s.append("\"}");
    s
}

fn need_update_record(id: &str, date: &str) -> (r: String)
    ensures
        r@ == need_update_line(id@, date@),
{
    let mut s = "{\"type\":\"need_update\",\"id\":\"".to_owned();
    s.append(id);
    s.append("\",\"date\":\"");
    s.append(date);
    s.append("\"}");
    s
}

/// Why an update line cannot be read: it is no JSON, it is a redirect
/// without a string `entity`, or it is no redirect and has no string `id`.
#[derive(Debug, PartialEq, Eq, Structural, Clone, Copy)]
pub enum UpdateError {
    InvalidJson,
    MissingEntity,
    MissingId,
}

/// The entity id and the output record of an update line `line` whose JSON
/// members are `f`: a redirect becomes a record that skips its `entity`, any
/// other line is kept whole under its `id`.
pub open spec fn spec_update_entry(
    line: Seq<char>,
    f: (bool, Option<Seq<char>>, Option<Seq<char>>),
) -> Result<(Seq<char>, Seq<char>), UpdateError> {
    if f.0 {
        match f.1 {
            Some(e) => Ok((e, skip_json_line(e))),
            None => Err(UpdateError::MissingEntity),
        }
    } else {
        match f.2 {
            Some(id) => Ok((id, line)),
            None => Err(UpdateError::MissingId),
        }
    }
}

/// The view of a result that holds a pair of strings.
pub open spec fn pair_result_view<E>(r: Result<(String, String), E>) -> Result<
    (Seq<char>, Seq<char>),
    E,
> {
    match r {
        Ok(p) => Ok(pair_view(p)),
        Err(e) => Err(e),
    }
}

/// The entity id and output record of the update line `line` whose JSON
/// members are `fields`, as `spec_update_entry` says.
pub fn update_entry(line: String, fields: UpdateFields) -> (r: Result<
    (String, String),
    UpdateError,
>)
    ensures
        pair_result_view(r) == spec_update_entry(line@, fields@),
{
    if fields.redirect {
        match fields.entity {
            Some(e) => {
                let rec = skip_json_record(e.as_str());
                Ok((e, rec))
            },
            None => Err(UpdateError::MissingEntity),
        }
    } else {
        match fields.id {
            Some(id) => Ok((id, line)),
            None => Err(UpdateError::MissingId),
        }
    }
}

/// Takes the line that the update stream handed out (`None` at its end) and
/// returns its entity id and output record: `Ok(None)` at the end, an error
/// when the line is no JSON or lacks the member it needs. The error marks
/// malformed input: the tools stop on it instead of going on.
pub fn next_update(line: Option<String>) -> (r: Result<Option<(String, String)>, UpdateError>)
    ensures
        match line {
            None => r == Ok::<Option<(String, String)>, UpdateError>(None),
            Some(l) => match spec_update_fields(l@) {
                None => r == Err::<Option<(String, String)>, UpdateError>(UpdateError::InvalidJson),
                Some(f) => match (r, spec_update_entry(l@, f)) {
                    (Ok(Some(p)), Ok(q)) => pair_view(p) == q,
                    (Err(e), Err(e2)) => e == e2,
                    _ => false,
                },
            },
        },
{
    match line {
        None => Ok(None),
        Some(l) => match read_update_fields(l.as_str()) {
            None => Err(UpdateError::InvalidJson),
            Some(f) => match update_entry(l, f) {
                Ok(p) => Ok(Some(p)),
                Err(e) => Err(e),
            },
        },
    }
}


/// Why an alignment step cannot be taken: an entity id of the JSON stream or
/// of the N-Triples stream cannot be packed, or the JSON stream's revision
/// is no `u64`.
#[derive(Debug, PartialEq, Eq, Structural, Clone, Copy)]
pub enum AlignError {
    InvalidJsonId,
    InvalidNtId,
    InvalidRevision,
}

/// What one alignment step does: the records to write, in order, and which
/// of the three streams move on to their next line.
pub struct AlignStep {
    pub records: Vec<String>,
    pub advance_json: bool,
    pub advance_nt: bool,
    pub advance_update: bool,
}

/// An `AlignStep` with its records taken as character sequences.
pub ghost struct AlignStepView {
    pub records: Seq<Seq<char>>,
    pub advance_json: bool,
    pub advance_nt: bool,
    pub advance_update: bool,
}

impl View for AlignStep {
    type V = AlignStepView;

    open spec fn view(&self) -> AlignStepView {
        AlignStepView {
            records: views(self.records@),
            advance_json: self.advance_json,
            advance_nt: self.advance_nt,
            advance_update: self.advance_update,
        }
    }
}

/// One alignment step, at the heads `json = (id, revision)` of the JSON
/// stream, `nt = (id, date)` of the N-Triples stream and `update = (id, record)`
/// of the update stream. When the ids differ, the stream whose entity the
/// other stream also holds (by `nt_ids` and `json_ids`) waits: the N-Triples
/// entity is skipped when the JSON entity is among `nt_ids` (and a misorder
/// is recorded when the N-Triples entity is among `json_ids` too), else the
/// JSON entity is skipped. When the ids agree and the date is known, an
/// entity whose JSON revision is not among the date's revisions needs an
/// update: the update record when the update stream is at this entity, else
/// a need-update record; and the update stream moves on when it is at this
/// entity. Both entity streams then move on.
pub open spec fn align_step(
    json_ids: Set<u64>,
    nt_ids: Set<u64>,
    revs: Map<Seq<char>, Set<u64>>,
    json: (Seq<char>, Seq<char>),
    nt: (Seq<char>, Seq<char>),
    update: Option<(Seq<char>, Seq<char>)>,
) -> Result<AlignStepView, AlignError> {
    let (json_id, json_rev) = json;
    let (nt_id, nt_date) = nt;
    if nt_id != json_id {
        match spec_entity_to_int(json_id) {
            None => Err(AlignError::InvalidJsonId),
            Some(j) => if nt_ids.contains(j) {
                match spec_entity_to_int(nt_id) {
                    None => Err(AlignError::InvalidNtId),
                    Some(n) => {
                        let first = if json_ids.contains(n) {
                            seq![misorder_line(nt_id, json_id)]
                        } else {
                            Seq::empty()
                        };
                        Ok(
                            AlignStepView {
                                records: first.push(skip_nt_line(nt_id)),
                                advance_json: false,
                                advance_nt: true,
                                advance_update: false,
                            },
                        )
                    },
                }
            } else {
                Ok(
                    AlignStepView {
                        records: seq![skip_json_line(json_id)],
                        advance_json: true,
                        advance_nt: false,
                        advance_update: false,
                    },
                )
            },
        }
    } else if revs.contains_key(nt_date) {
        match crate::number::spec_parse_u64(json_rev) {
            None => Err(AlignError::InvalidRevision),
            Some(r) => {
                let at_entity = match update {
                    Some((uid, _)) => uid == nt_id,
                    None => false,
                };
                let records = if revs[nt_date].contains(r) {
                    Seq::empty()
                } else if at_entity {
                    seq![update.unwrap().1]
                } else {
                    seq![need_update_line(nt_id, nt_date)]
                };
                Ok(
                    AlignStepView {
                        records,
                        advance_json: true,
                        advance_nt: true,
                        advance_update: at_entity,
                    },
                )
            },
        }
    } else {
        Ok(
            AlignStepView {
                records: Seq::empty(),
                advance_json: true,
                advance_nt: true,
                advance_update: false,
            },
        )
    }
}

/// The view of an optional pair of strings.
pub open spec fn opt_pair_view(p: Option<(String, String)>) -> Option<(Seq<char>, Seq<char>)> {
    match p {
        Some(q) => Some(pair_view(q)),
        None => None,
    }
}

/// The tables that the alignment consults: the entities of the JSON dump, the
/// entities of the N-Triples dump, and the revisions known for each date.
pub struct Aligner {
    pub json_ids: std::collections::HashSet<u64>,
    pub nt_ids: std::collections::HashSet<u64>,
    pub date_revs: crate::date_index::DateRevisions,
}

impl Aligner {
    /// Takes one alignment step at the heads of the three streams, as
    /// `align_step` says.
    pub fn step(
        &self,
        json: &(String, String),
        nt: &(String, String),
        update: &Option<(String, String)>,
    ) -> (r: Result<AlignStep, AlignError>)
        requires
            self.date_revs.wf(),
        ensures
            match (r, align_step(
                self.json_ids@,
                self.nt_ids@,
                self.date_revs@,
                pair_view(*json),
                pair_view(*nt),
                opt_pair_view(*update),
            )) {
                (Ok(s), Ok(t)) => s@ == t,
                (Err(e), Err(e2)) => e == e2,
                _ => false,
            },
    {
        let json_id = json.0.as_str();
        let json_rev = json.1.as_str();
        let nt_id = nt.0.as_str();
        let nt_date = nt.1.as_str();
        if !same_text(nt_id, json_id) {
            let j = match entity_to_int(json_id) {
                None => return Err(AlignError::InvalidJsonId),
                Some(j) => j,
            };
            if self.nt_ids.contains(&j) {
                let n = match entity_to_int(nt_id) {
                    None => return Err(AlignError::InvalidNtId),
                    Some(n) => n,
                };
                let mut records: Vec<String> = Vec::new();
                if self.json_ids.contains(&n) {
                    records.push(misorder_record(nt_id, json_id));
                }
                records.push(skip_nt_record(nt_id));
                proof {
                    let first = if self.json_ids@.contains(n) {
                        seq![misorder_line(nt_id@, json_id@)]
                    } else {
                        Seq::empty()
                    };
                    assert(views(records@) =~= first.push(skip_nt_line(nt_id@)));
                }
                Ok(
                    AlignStep {
                        records,
                        advance_json: false,
                        advance_nt: true,
                        advance_update: false,
                    },
                )
            } else {
                let mut records: Vec<String> = Vec::new();
                records.push(skip_json_record(json_id));
                assert(views(records@) =~= seq![skip_json_line(json_id@)]);
                Ok(
                    AlignStep {
                        records,
                        advance_json: true,
                        advance_nt: false,
                        advance_update: false,
                    },
                )
            }
        } else {
            match self.date_revs.has_date(nt_date) {
                false => {
                    let records: Vec<String> = Vec::new();
                    assert(views(records@) =~= Seq::<Seq<char>>::empty());
                    Ok(
                        AlignStep {
                            records,
                            advance_json: true,
                            advance_nt: true,
                            advance_update: false,
                        },
                    )
                },
                true => {
                    let r = match crate::number::parse_u64(json_rev) {
                        None => return Err(AlignError::InvalidRevision),
                        Some(r) => r,
                    };
                    let known = self.date_revs.lookup(nt_date, r);
                    let at_entity = match update {
                        Some(u) => same_text(u.0.as_str(), nt_id),
                        None => false,
                    };
                    let mut records: Vec<String> = Vec::new();
                    if known != Some(true) {
                        if at_entity {
                            match update {
                                Some(u) => records.push(u.1.clone()),
                                None => {},
                            }
                        } else {
                            records.push(need_update_record(nt_id, nt_date));
                        }
                    }
                    proof {
                        let revs = self.date_revs@;
                        let expected = if revs[nt_date@].contains(r) {
                            Seq::<Seq<char>>::empty()
                        } else if at_entity {
                            seq![opt_pair_view(*update).unwrap().1]
                        } else {
                            seq![need_update_line(nt_id@, nt_date@)]
                        };
                        assert(views(records@) =~= expected);
                    }
                    Ok(
                        AlignStep {
                            records,
                            advance_json: true,
                            advance_nt: true,
                            advance_update: at_entity,
                        },
                    )
                },
            }
        }
    }
}


/// Two entity ids pack to the same integer only when they have the same
/// kind and the same number.
pub proof fn law_entity_ids_distinct(a: Seq<char>, b: Seq<char>)
    requires
        spec_entity_to_int(a) is Some,
        spec_entity_to_int(a) == spec_entity_to_int(b),
    ensures
        crate::entity::kind_code(a[0]) == crate::entity::kind_code(b[0]),
        crate::number::spec_parse_u64(a.drop_first()) == crate::number::spec_parse_u64(
            b.drop_first(),
        ),
{
    crate::entity::lemma_pack_injective(a[0], a.drop_first(), b[0], b.drop_first());
}

/// A packed entity id gives back the id's number (divide by four) and the
/// code of its kind letter (the remainder).
pub proof fn law_entity_id_decodes(e: Seq<char>)
    requires
        spec_entity_to_int(e) is Some,
    ensures
        spec_entity_to_int(e).unwrap() / 4 == crate::number::spec_parse_u64(e.drop_first()).unwrap(),
        spec_entity_to_int(e).unwrap() % 4 == crate::entity::kind_code(e[0]).unwrap(),
{
    crate::entity::law_pack_decodes(e[0], e.drop_first());
}

/// An entity id as the dumps write it: a kind letter, then the number in
/// decimal without sign and without leading zeros.
pub open spec fn canonical_id(e: Seq<char>) -> bool {
    &&& e.len() >= 2
    &&& crate::entity::kind_code(e[0]) is Some
    &&& crate::entity::canonical_digits(e.drop_first())
}

/// Two entity ids written as the dumps write them pack to the same integer
/// only when they are the same id.
pub proof fn law_canonical_ids_pack_apart(a: Seq<char>, b: Seq<char>)
    requires
        canonical_id(a),
        canonical_id(b),
        spec_entity_to_int(a) is Some,
        spec_entity_to_int(a) == spec_entity_to_int(b),
    ensures
        a == b,
{
    law_entity_ids_distinct(a, b);
    let da = a.drop_first();
    let db = b.drop_first();
    assert(crate::number::is_digit(da[0]));
    assert(crate::number::is_digit(db[0]));
    assert(da[0] != '+');
    assert(db[0] != '+');
    assert(crate::number::digits_within(da, u64::MAX as nat) is Some);
    assert(crate::number::digits_within(db, u64::MAX as nat) is Some);
    assert(crate::number::digits_value(da) == crate::number::digits_value(db));
    crate::entity::lemma_canonical_digits_injective(da, db);
    assert(a[0] == b[0]);
    assert(a =~= seq![a[0]] + da);
    assert(b =~= seq![b[0]] + db);
}

/// Reading an id file in two chunks gives the set that reading it whole gives.
pub proof fn law_read_file_in_chunks(ids: Set<u64>, a: Seq<Seq<char>>, b: Seq<Seq<char>>)
    ensures
        ids_after(ids_after(ids, a), b) == ids_after(ids, a + b),
    decreases b.len(),
{
    if b.len() == 0 {
        assert(a + b =~= a);
    } else {
        law_read_file_in_chunks(ids, a, b.drop_last());
        assert((a + b).drop_last() =~= a + b.drop_last());
        assert((a + b).last() == b.last());
    }
}

/// The mapper of an id file: a readable entity is a key with no value.
pub open spec fn id_mapper() -> spec_fn(nat, Seq<char>, Seq<char>) -> Option<(u64, ())> {
    |i: nat, entity: Seq<char>, rest: Seq<char>|
        match spec_entity_to_int(entity) {
            Some(k) => Some((k, ())),
            None => None,
        }
}

/// Reading an id file is reading its lines through `id_mapper`, in order,
/// one call per line, and keeping the keys.
pub proof fn law_read_file_is_mapped(ids: Set<u64>, lines: Seq<Seq<char>>)
    ensures
        ids_after(ids, lines) == ids.union(
            crate::text::mapped_after(Map::<u64, ()>::empty(), lines, id_mapper()).dom(),
        ),
    decreases lines.len(),
{
    if lines.len() > 0 {
        let init = lines.drop_last();
        law_read_file_is_mapped(ids, init);
        assert(lines[lines.len() - 1] == lines.last());
        let m2 = crate::text::mapped_after(Map::<u64, ()>::empty(), init, id_mapper());
        match entity_of_line(lines.last()) {
            Ok(v) => {
                assert(ids.union(m2.dom()).insert(v) =~= ids.union(m2.insert(v, ()).dom()));
            },
            Err(_) => {},
        }
    } else {
        assert(ids.union(Map::<u64, ()>::empty().dom()) =~= ids);
    }
}

/// After reading an id file, the set holds exactly the ids it held and the
/// entities that the readable lines name.
pub proof fn law_read_file_members(ids: Set<u64>, lines: Seq<Seq<char>>, v: u64)
    ensures
        ids_after(ids, lines).contains(v) <==> ids.contains(v) || exists|i: int|
            0 <= i < lines.len() && #[trigger] entity_of_line(lines[i]) == Ok::<u64, LineError>(v),
    decreases lines.len(),
{
    if lines.len() > 0 {
        let init = lines.drop_last();
        law_read_file_members(ids, init, v);
        if exists|i: int| 0 <= i < init.len() && #[trigger] entity_of_line(init[i]) == Ok::<u64, LineError>(v) {
            let i = choose|i: int| 0 <= i < init.len() && #[trigger] entity_of_line(init[i]) == Ok::<u64, LineError>(v);
            assert(lines[i] == init[i]);
        }
        if exists|i: int| 0 <= i < lines.len() && #[trigger] entity_of_line(lines[i]) == Ok::<u64, LineError>(v) {
            let i = choose|i: int| 0 <= i < lines.len() && #[trigger] entity_of_line(lines[i]) == Ok::<u64, LineError>(v);
            if i < init.len() {
                assert(init[i] == lines[i]);
            }
        }
    }
}

/// After reading a revision file, a revision is known for a date exactly
/// when it was known before or a readable line pairs it with the date.
pub proof fn law_read_revisions_members(
    m: Map<Seq<char>, Set<u64>>,
    lines: Seq<Seq<char>>,
    d: Seq<char>,
    r: u64,
)
    ensures
        crate::date_index::revs_of(revs_after(m, lines), d).contains(r) <==> crate::date_index::revs_of(
            m,
            d,
        ).contains(r) || exists|i: int|
            0 <= i < lines.len() && #[trigger] rev_of_line(lines[i]) == Ok::<
                (u64, Seq<char>),
                LineError,
            >((r, d)),
    decreases lines.len(),
{
    if lines.len() > 0 {
        let init = lines.drop_last();
        law_read_revisions_members(m, init, d, r);
        let goal = Ok::<(u64, Seq<char>), LineError>((r, d));
        if exists|i: int| 0 <= i < init.len() && #[trigger] rev_of_line(init[i]) == goal {
            let i = choose|i: int| 0 <= i < init.len() && #[trigger] rev_of_line(init[i]) == goal;
            assert(lines[i] == init[i]);
        }
        if exists|i: int| 0 <= i < lines.len() && #[trigger] rev_of_line(lines[i]) == goal {
            let i = choose|i: int| 0 <= i < lines.len() && #[trigger] rev_of_line(lines[i]) == goal;
            if i < init.len() {
                assert(init[i] == lines[i]);
            }
        }
    }
}

/// Every alignment step moves on: both entity streams when the ids agree,
/// exactly one of them when they differ; the update stream only when it is
/// at the N-Triples entity; and a step writes at most two records.
pub proof fn law_step_moves_on(
    json_ids: Set<u64>,
    nt_ids: Set<u64>,
    revs: Map<Seq<char>, Set<u64>>,
    json: (Seq<char>, Seq<char>),
    nt: (Seq<char>, Seq<char>),
    update: Option<(Seq<char>, Seq<char>)>,
)
    requires
        align_step(json_ids, nt_ids, revs, json, nt, update) is Ok,
    ensures
        ({
            let s = align_step(json_ids, nt_ids, revs, json, nt, update)->Ok_0;
            &&& s.advance_json || s.advance_nt
            &&& json.0 == nt.0 ==> s.advance_json && s.advance_nt
            &&& json.0 != nt.0 ==> s.advance_json != s.advance_nt
            &&& s.advance_update ==> (update matches Some(u) && u.0 == nt.0)
            &&& s.records.len() <= 2
        }),
{
}

/// A step writes only records about the two heads: a skip of either entity,
/// a misorder of the two, a need-update of the N-Triples entity at its date,
/// or the record of an update whose id is the N-Triples entity's id.
pub proof fn law_step_records_belong_to_heads(
    json_ids: Set<u64>,
    nt_ids: Set<u64>,
    revs: Map<Seq<char>, Set<u64>>,
    json: (Seq<char>, Seq<char>),
    nt: (Seq<char>, Seq<char>),
    update: Option<(Seq<char>, Seq<char>)>,
)
    requires
        align_step(json_ids, nt_ids, revs, json, nt, update) is Ok,
    ensures
        ({
            let s = align_step(json_ids, nt_ids, revs, json, nt, update)->Ok_0;
            forall|i: int|
                0 <= i < s.records.len() ==> {
                    ||| s.records[i] == skip_json_line(json.0)
                    ||| s.records[i] == skip_nt_line(nt.0)
                    ||| s.records[i] == misorder_line(nt.0, json.0)
                    ||| s.records[i] == need_update_line(nt.0, nt.1)
                    ||| (update matches Some(u) && u.0 == nt.0 && s.records[i] == u.1)
                }
        }),
{
}

/// When both streams are at the same entity and the N-Triples date is
/// known, the step writes nothing if the JSON revision is among the date's
/// revisions; otherwise it writes exactly one record: the update stream's
/// record when that stream is at this entity, else a need-update of the
/// entity at that date. Either way the update stream moves on exactly when
/// it is at this entity. When the date is unknown, nothing is written and
/// the JSON revision is not read.
pub proof fn law_step_same_entity(
    json_ids: Set<u64>,
    nt_ids: Set<u64>,
    revs: Map<Seq<char>, Set<u64>>,
    json: (Seq<char>, Seq<char>),
    nt: (Seq<char>, Seq<char>),
    update: Option<(Seq<char>, Seq<char>)>,
)
    requires
        json.0 == nt.0,
    ensures
        !revs.contains_key(nt.1) ==> (align_step(json_ids, nt_ids, revs, json, nt, update) matches Ok(
            s,
        ) && s.records.len() == 0 && s.advance_json && s.advance_nt && !s.advance_update),
        revs.contains_key(nt.1) && crate::number::spec_parse_u64(json.1) is None ==> align_step(
            json_ids,
            nt_ids,
            revs,
            json,
            nt,
            update,
        ) == Err::<AlignStepView, AlignError>(AlignError::InvalidRevision),
        revs.contains_key(nt.1) && crate::number::spec_parse_u64(json.1) is Some ==> ({
            let r = crate::number::spec_parse_u64(json.1).unwrap();
            let at_entity = update matches Some(u) && u.0 == nt.0;
            (align_step(json_ids, nt_ids, revs, json, nt, update) matches Ok(s) && s.advance_json
                && s.advance_nt && s.advance_update == at_entity && s.records == (if revs[nt.1].contains(r) {
                Seq::<Seq<char>>::empty()
            } else if at_entity {
                seq![update.unwrap().1]
            } else {
                seq![need_update_line(nt.0, nt.1)]
            }))
        }),
{
}

/// When the streams are at different entities, the step skips the
/// N-Triples entity (writing a misorder first when the JSON dump holds it)
/// exactly when the N-Triples dump holds the JSON entity, and else skips the
/// JSON entity; the update stream stays.
pub proof fn law_step_different_entities(
    json_ids: Set<u64>,
    nt_ids: Set<u64>,
    revs: Map<Seq<char>, Set<u64>>,
    json: (Seq<char>, Seq<char>),
    nt: (Seq<char>, Seq<char>),
    update: Option<(Seq<char>, Seq<char>)>,
)
    requires
        json.0 != nt.0,
        spec_entity_to_int(json.0) is Some,
        spec_entity_to_int(nt.0) is Some,
    ensures
        ({
            let j = spec_entity_to_int(json.0).unwrap();
            let n = spec_entity_to_int(nt.0).unwrap();
            (align_step(json_ids, nt_ids, revs, json, nt, update) matches Ok(s) && !s.advance_update
                && (if nt_ids.contains(j) {
                !s.advance_json && s.advance_nt && s.records == (if json_ids.contains(n) {
                    seq![misorder_line(nt.0, json.0), skip_nt_line(nt.0)]
                } else {
                    seq![skip_nt_line(nt.0)]
                })
            } else {
                s.advance_json && !s.advance_nt && s.records == seq![skip_json_line(json.0)]
            }))
        }),
{
    let n = spec_entity_to_int(nt.0).unwrap();
    if json_ids.contains(n) {
        assert(seq![misorder_line(nt.0, json.0)].push(skip_nt_line(nt.0)) =~= seq![
            misorder_line(nt.0, json.0),
            skip_nt_line(nt.0),
        ]);
    } else {
        assert(Seq::<Seq<char>>::empty().push(skip_nt_line(nt.0)) =~= seq![skip_nt_line(nt.0)]);
    }
}

/// A line whose first field is a `u64` records that revision under exactly
/// the text of its second field, and reading later lines never takes it
/// away.
pub proof fn law_revision_line_recorded(
    m: Map<Seq<char>, Set<u64>>,
    lines: Seq<Seq<char>>,
    i: int,
)
    requires
        0 <= i < lines.len(),
        crate::text::spec_split_pair(lines[i]) is Some,
        crate::number::spec_parse_u64(crate::text::spec_split_pair(lines[i])->Some_0.0) is Some,
    ensures
        ({
            let (r, d) = crate::text::spec_split_pair(lines[i])->Some_0;
            &&& revs_after(m, lines).contains_key(d)
            &&& revs_after(m, lines)[d].contains(crate::number::spec_parse_u64(r).unwrap())
        }),
    decreases lines.len(),
{
    let (r, d) = crate::text::spec_split_pair(lines[i])->Some_0;
    let v = crate::number::spec_parse_u64(r).unwrap();
    let init = lines.drop_last();
    if i < lines.len() - 1 {
        assert(init[i] == lines[i]);
        law_revision_line_recorded(m, init, i);
    } else {
        assert(lines.last() == lines[i]);
    }
}

/// A line whose first field is an entity id records that entity, and reading
/// later lines never takes it away.
pub proof fn law_id_line_recorded(ids: Set<u64>, lines: Seq<Seq<char>>, i: int)
    requires
        0 <= i < lines.len(),
        crate::text::spec_split_pair(lines[i]) is Some,
        spec_entity_to_int(crate::text::spec_split_pair(lines[i])->Some_0.0) is Some,
    ensures
        ids_after(ids, lines).contains(
            spec_entity_to_int(crate::text::spec_split_pair(lines[i])->Some_0.0).unwrap(),
        ),
    decreases lines.len(),
{
    let init = lines.drop_last();
    if i < lines.len() - 1 {
        assert(init[i] == lines[i]);
        law_id_line_recorded(ids, init, i);
    } else {
        assert(lines.last() == lines[i]);
    }
}

} // verus!
