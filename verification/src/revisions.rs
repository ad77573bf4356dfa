//! Sorting the revisions of an XML page dump into the order of a date list:
//! page titles as entity ids, the date list, the selection of revision texts
//! from the XML events, and the store of compressed revisions.

use vstd::prelude::*;
use crate::entity::{pack, spec_pack};
use crate::text::{same_text, split_pair, spec_split_pair, views, LineError, ReadError};

verus! {

/// The title prefix of property pages: `Property:`.
pub open spec fn property_prefix() -> Seq<char> {
    seq!['P', 'r', 'o', 'p', 'e', 'r', 't', 'y', ':']
}

/// `s` begins with `prefix`.
pub open spec fn starts_with(s: Seq<char>, prefix: Seq<char>) -> bool {
    prefix.len() <= s.len() && s.take(prefix.len() as int) == prefix
}

/// A character that UTF-8 writes in one byte.
pub open spec fn is_ascii_char(c: char) -> bool {
    (c as u32) < 128
}

/// The packed integer of a page title: `Property:P31` reads the number after
/// the tenth character (where the tenth must be written in one byte, and the
/// kind is that of the first letter, `P`); any other title is a kind letter
/// followed by the number, as in `Q42`.
pub open spec fn spec_entity_to_int(entity: Seq<char>) -> Option<u64> {
    if entity.len() == 0 {
        None
    } else if starts_with(entity, property_prefix()) {
        if entity.len() >= 10 && is_ascii_char(entity[9]) {
            spec_pack(entity[0], entity.skip(10))
        } else {
            None
        }
    } else {
        spec_pack(entity[0], entity.drop_first())
    }
}

/// Packs a page title into an entity integer: `Q42` into `42 * 4 + 0`,
/// `Property:P31` into `31 * 4 + 1`. `None` exactly for the titles that
/// cannot be read so: empty titles, unknown kind letters, numbers that are
/// no `u64`, packed values beyond 64 bits, and a `Property:` title whose
/// tenth character is missing or wider than one byte. `None` marks malformed
/// input: the tools stop on it instead of going on.
pub fn entity_to_int(entity: &str) -> (r: Option<u64>)
    ensures
        r == spec_entity_to_int(entity@),
{
    let n = entity.unicode_len();
    if n == 0 {
        return None;
    }
    let code = entity.get_char(0);
    let prefix = "Property:";
    proof {
        reveal_strlit("Property:");
        assert(prefix@ =~= property_prefix());
    }
    if n >= 9 && same_text(entity.substring_char(0, 9), prefix) {
        assert(entity@.take(9) =~= entity@.subrange(0, 9));
        if n >= 10 && (entity.get_char(9) as u32) < 128 {
            let rest = entity.substring_char(10, n);
            assert(rest@ =~= entity@.skip(10));
            pack(code, rest)
        } else {
            None
        }
    } else {
        proof {
            if n >= 9 {
                assert(entity@.take(9) =~= entity@.subrange(0, 9));
            }
        }
        let rest = entity.substring_char(1, n);
        assert(rest@ =~= entity@.drop_first());
        pack(code, rest)
    }
}

/// A property page title names the same entity as the property's short id:
/// `Property:P` followed by `d` packs like `P` followed by `d`, unless
/// `P` followed by `d` itself begins with `Property:`.
pub proof fn law_property_title_is_short_id(d: Seq<char>)
    requires
        !starts_with(seq!['P'] + d, property_prefix()),
    ensures
        spec_entity_to_int(property_prefix() + seq!['P'] + d) == spec_entity_to_int(
            seq!['P'] + d,
        ),
{
    let long = property_prefix() + seq!['P'] + d;
    let short = seq!['P'] + d;
    assert(long.take(9) =~= property_prefix());
    assert(long[9] == 'P');
    assert(long.skip(10) =~= d);
    assert(short.drop_first() =~= d);
}


/// The events of an XML reader that the revision selection reads: element
/// starts and ends by local name, character data, and every other event.
pub enum XmlEvent {
    StartElement(String),
    EndElement(String),
    Characters(String),
    Other,
}

/// An `XmlEvent` with its strings taken as character sequences.
pub ghost enum XmlEventView {
    StartElement(Seq<char>),
    EndElement(Seq<char>),
    Characters(Seq<char>),
    Other,
}

impl View for XmlEvent {
    type V = XmlEventView;

    open spec fn view(&self) -> XmlEventView {
        match self {
            XmlEvent::StartElement(n) => XmlEventView::StartElement(n@),
            XmlEvent::EndElement(n) => XmlEventView::EndElement(n@),
            XmlEvent::Characters(d) => XmlEventView::Characters(d@),
            XmlEvent::Other => XmlEventView::Other,
        }
    }
}

/// Why an event cannot be taken: the character data of an `ns` element is
/// no `i32`, or the element depth leaves the range of `i32`.
#[derive(Debug, PartialEq, Eq, Structural, Clone, Copy)]
pub enum RevTextError {
    InvalidNamespace,
    DepthOverflow,
}

/// The state of the revision selection, with its strings as sequences.
pub ghost struct RevTextView {
    pub in_text: bool,
    pub in_revision: bool,
    pub in_date: bool,
    pub rev_date: Option<Seq<char>>,
    pub rev_title: Option<Seq<char>>,
    pub in_title: bool,
    pub in_ns: bool,
    pub ns: i32,
    pub depth: i32,
}

/// The state in which the selection starts: outside every element,
/// namespace 0, nothing seen.
pub open spec fn rev_text_start() -> RevTextView {
    RevTextView {
        in_text: false,
        in_revision: false,
        in_date: false,
        rev_date: None,
        rev_title: None,
        in_title: false,
        in_ns: false,
        ns: 0,
        depth: 0,
    }
}

/// One step of the revision selection: the state after `e`, and the
/// `(title, date, text)` that `e` yields, if any; `Err` where the event
/// cannot be taken.
pub open spec fn rev_text_step(s: RevTextView, e: XmlEventView) -> Result<
    (RevTextView, Option<(Seq<char>, Seq<char>, Seq<char>)>),
    RevTextError,
> {
    match e {
        XmlEventView::StartElement(name) => {
            if s.depth == i32::MAX {
                Err(RevTextError::DepthOverflow)
            } else {
                Ok(
                    (
                        RevTextView {
                            in_text: name == "text"@,
                            in_title: s.depth == 2 && name == "title"@,
                            in_ns: s.depth == 2 && name == "ns"@,
                            in_date: s.depth == 3 && s.in_revision && name == "timestamp"@,
                            in_revision: s.in_revision || name == "revision"@,
                            depth: (s.depth + 1) as i32,
                            ..s
                        },
                        None,
                    ),
                )
            }
        },
        XmlEventView::EndElement(name) => {
            if s.depth == i32::MIN {
                Err(RevTextError::DepthOverflow)
            } else {
                Ok(
                    (
                        RevTextView {
                            in_text: false,
                            in_date: false,
                            in_title: false,
                            in_ns: false,
                            in_revision: s.in_revision && name != "revision"@,
                            depth: (s.depth - 1) as i32,
                            ..s
                        },
                        None,
                    ),
                )
            }
        },
        XmlEventView::Characters(data) => {
            if s.in_date {
                Ok((RevTextView { rev_date: Some(data), ..s }, None))
            } else if s.in_title {
                Ok((RevTextView { rev_title: Some(data), ..s }, None))
            } else if s.in_ns {
                match crate::number::spec_parse_i32(data) {
                    Some(v) => Ok((RevTextView { ns: v, ..s }, None)),
                    None => Err(RevTextError::InvalidNamespace),
                }
            } else if s.in_text && (s.ns == 120 || s.ns == 0) {
                match (s.rev_title, s.rev_date) {
                    (Some(t), Some(d)) => Ok((s, Some((t, d, data)))),
                    _ => Ok((s, None)),
                }
            } else {
                Ok((s, None))
            }
        },
        XmlEventView::Other => Ok((s, None)),
    }
}

/// The selection of revision texts from the events of an XML page dump:
/// each text of a page in namespace 0 or 120 comes out with the page's title
/// and the revision's timestamp.
pub struct RevText {
    in_text: bool,
    in_revision: bool,
    in_date: bool,
    rev_date: Option<String>,
    rev_title: Option<String>,
    in_title: bool,
    in_ns: bool,
    ns: i32,
    depth: i32,
}

/// The view of an optional string.
pub open spec fn opt_view(o: Option<String>) -> Option<Seq<char>> {
    match o {
        Some(s) => Some(s@),
        None => None,
    }
}

impl View for RevText {
    type V = RevTextView;

    closed spec fn view(&self) -> RevTextView {
        RevTextView {
            in_text: self.in_text,
            in_revision: self.in_revision,
            in_date: self.in_date,
            rev_date: opt_view(self.rev_date),
            rev_title: opt_view(self.rev_title),
            in_title: self.in_title,
            in_ns: self.in_ns,
            ns: self.ns,
            depth: self.depth,
        }
    }
}

/// A fresh revision selection, to be fed the events of one XML reader.
pub fn get_rev_text() -> (r: RevText)
    ensures
        r@ == rev_text_start(),
{
    RevText {
        in_text: false,
        in_revision: false,
        in_date: false,
        rev_date: None,
        rev_title: None,
        in_title: false,
        in_ns: false,
        ns: 0,
        depth: 0,
    }
}

impl RevText {
    /// Takes the next XML event and returns the `(title, date, text)` that it
    /// yields, if any, as `rev_text_step` says. The error marks malformed
    /// input: the tools stop on it instead of going on.
    pub fn next_event(&mut self, event: XmlEvent) -> (r: Result<
        Option<(String, String, String)>,
        RevTextError,
    >)
        ensures
            match rev_text_step(old(self)@, event@) {
                Ok((s, out)) => {
                    &&& r is Ok
                    &&& final(self)@ == s
                    &&& match (r->Ok_0, out) {
                        (Some((t, d, x)), Some((t2, d2, x2))) => t@ == t2 && d@ == d2 && x@ == x2,
                        (None, None) => true,
                        _ => false,
                    }
                },
                Err(e) => r == Err::<Option<(String, String, String)>, RevTextError>(e),
            },
    {
        match event {
            XmlEvent::StartElement(name) => {
                if self.depth == i32::MAX {
                    return Err(RevTextError::DepthOverflow);
                }
                let is_text = same_text(name.as_str(), "text");
                let is_title = same_text(name.as_str(), "title");
                let is_ns = same_text(name.as_str(), "ns");
                let is_timestamp = same_text(name.as_str(), "timestamp");
                let is_revision = same_text(name.as_str(), "revision");
                self.in_text = is_text;
                self.in_title = self.depth == 2 && is_title;
                self.in_ns = self.depth == 2 && is_ns;
                self.in_date = self.depth == 3 && self.in_revision && is_timestamp;
                if is_revision {
                    self.in_revision = true;
                }
                self.depth = self.depth + 1;
                Ok(None)
            },
            XmlEvent::EndElement(name) => {
                if self.depth == i32::MIN {
                    return Err(RevTextError::DepthOverflow);
                }
                self.in_text = false;
                self.in_date = false;
                self.in_title = false;
                self.in_ns = false;
                if same_text(name.as_str(), "revision") {
                    self.in_revision = false;
                }
                self.depth = self.depth - 1;
                Ok(None)
            },
            XmlEvent::Characters(data) => {
                if self.in_date {
                    self.rev_date = Some(data);
                } else if self.in_title {
                    self.rev_title = Some(data);
                } else if self.in_ns {
                    match crate::number::parse_i32(data.as_str()) {
                        Some(v) => {
                            self.ns = v;
                        },
                        None => {
                            return Err(RevTextError::InvalidNamespace);
                        },
                    }
                } else if self.in_text && (self.ns == 120 || self.ns == 0) {
                    match (&self.rev_title, &self.rev_date) {
                        (Some(title), Some(date)) => {
                            return Ok(Some((title.clone(), date.clone(), data)));
                        },
                        _ => {},
                    }
                }
                Ok(None)
            },
            XmlEvent::Other => Ok(None),
        }
    }
}


/// The wanted date and the output position of each item, and the number of
/// date lines read.
pub ghost struct ItemDatesView {
    pub dates: Map<u64, (Seq<char>, nat)>,
    pub count: nat,
}

/// The wanted date and output position of each item, as a date order file
/// lists them: one `item,date` line per position.
pub struct ItemDates {
    map: std::collections::HashMap<u64, (String, usize)>,
    count: usize,
}

impl View for ItemDates {
    type V = ItemDatesView;

    closed spec fn view(&self) -> ItemDatesView {
        ItemDatesView {
            dates: self.map@.map_values(|v: (String, usize)| (v.0@, v.1 as nat)),
            count: self.count as nat,
        }
    }
}

/// The item and date of a line of the date order file.
pub open spec fn item_of_line(line: Seq<char>) -> Result<(u64, Seq<char>), LineError> {
    match spec_split_pair(line) {
        None => Err(LineError::MissingField),
        Some((item, date)) => match spec_entity_to_int(item) {
            Some(k) => Ok((k, date)),
            None => Err(LineError::InvalidEntity),
        },
    }
}

/// The table after reading each line in order: every line takes the next
/// position, and an item's last line wins.
pub open spec fn dates_after(t: ItemDatesView, lines: Seq<Seq<char>>) -> ItemDatesView
    decreases lines.len(),
{
    if lines.len() == 0 {
        t
    } else {
        let t2 = dates_after(t, lines.drop_last());
        match item_of_line(lines.last()) {
            Ok((k, d)) => ItemDatesView {
                dates: t2.dates.insert(k, (d, t2.count)),
                count: t2.count + 1,
            },
            Err(_) => t2,
        }
    }
}

impl ItemDates {
    /// Every position in the table comes before the count.
    pub closed spec fn wf(&self) -> bool {
        forall|k: u64| #[trigger] self.map@.contains_key(k) ==> self.map@[k].1 < self.count
    }

    /// No items, no lines.
    pub fn new() -> (r: Self)
        ensures
            r.wf(),
            r@.dates == Map::<u64, (Seq<char>, nat)>::empty(),
            r@.count == 0,
    {
        let r = ItemDates { map: std::collections::HashMap::new(), count: 0 };
        assert(r@.dates =~= Map::<u64, (Seq<char>, nat)>::empty());
        r
    }

    /// The number of date lines read.
    pub fn count(&self) -> (r: usize)
        ensures
            r == self@.count,
    {
        self.count
    }

    /// The wanted date and position of `item`.
    pub fn get(&self, item: u64) -> (r: Option<(&String, usize)>)
        ensures
            match r {
                Some((d, i)) => self@.dates.contains_key(item) && self@.dates[item] == (d@, i as nat),
                None => !self@.dates.contains_key(item),
            },
    {
        match self.map.get(&item) {
            Some(v) => Some((&v.0, v.1)),
            None => None,
        }
    }
}

/// Reads the lines of a date order file (`item,date`, where the item is a
/// page title as `entity_to_int` reads it) into the table: each line takes
/// the next position. The error marks malformed input: the tools stop on it
/// instead of going on. On error, the lines before the bad line are read.
pub fn read_file(table: &mut ItemDates, lines: &Vec<String>) -> (r: Result<(), ReadError>)
    requires
        old(table).wf(),
        old(table)@.count + lines@.len() <= usize::MAX,
    ensures
        final(table).wf(),
        match r {
            Ok(()) => {
                &&& forall|i: int| 0 <= i < lines@.len() ==> #[trigger] item_of_line(lines@[i]@) is Ok
                &&& final(table)@ == dates_after(old(table)@, views(lines@))
            },
            Err(e) => {
                &&& e.line < lines@.len()
                &&& item_of_line(lines@[e.line as int]@) matches Err(k) && k == e.kind
                &&& forall|i: int| 0 <= i < e.line ==> #[trigger] item_of_line(lines@[i]@) is Ok
                &&& final(table)@ == dates_after(old(table)@, views(lines@).take(e.line as int))
            },
        },
{
    let mut i: usize = 0;
    while i < lines.len()
        invariant
            i <= lines@.len(),
            table.wf(),
            old(table)@.count + lines@.len() <= usize::MAX,
            table@.count == old(table)@.count + i,
            forall|j: int| 0 <= j < i ==> #[trigger] item_of_line(lines@[j]@) is Ok,
            table@ == dates_after(old(table)@, views(lines@).take(i as int)),
        decreases lines@.len() - i,
    {
        let ghost ls = views(lines@);
        let ghost t0 = table@;
        assert(ls.take(i + 1).drop_last() =~= ls.take(i as int));
        assert(ls.take(i + 1).last() == lines@[i as int]@);
        match split_pair(lines[i].as_str()) {
            None => {
                return Err(ReadError { line: i, kind: LineError::MissingField });
            },
            Some((item, date)) => match entity_to_int(item.as_str()) {
                None => {
                    return Err(ReadError { line: i, kind: LineError::InvalidEntity });
                },
                Some(k) => {
                    let idx = table.count;
                    table.map.insert(k, (date, idx));
                    table.count = idx + 1;
                    proof {
                        let m = table.map@.map_values(|v: (String, usize)| (v.0@, v.1 as nat));
                        assert(m =~= t0.dates.insert(k, (item_of_line(lines@[i as int]@)->Ok_0.1, t0.count)));
                    }
                },
            },
        }
        i = i + 1;
    }
    assert(views(lines@).take(i as int) =~= views(lines@));
    Ok(())
}


/// Why the store cannot be built or cannot take or give back a revision:
/// the dictionary training failed, a page title is no entity id, or zstd
/// failed to compress or to decompress.
#[derive(Debug, PartialEq, Eq, Structural, Clone, Copy)]
pub enum StoreError {
    DictionaryTraining,
    InvalidTitle,
    Compression,
    Decompression,
}

/// The largest document that the store gives back, exclusive: 100 MiB.
pub const DOCUMENT_CAPACITY: usize = 104857600;

/// The store with its table, its dictionary and level, the compressed frame
/// kept at each position and the document that each frame holds.
pub ghost struct RevisionStoreView {
    pub items: ItemDatesView,
    pub dict: Seq<u8>,
    pub level: i32,
    pub frames: Seq<Option<Seq<u8>>>,
    pub documents: Seq<Option<Seq<u8>>>,
}

/// The revision texts wanted by a date order, compressed with a trained
/// dictionary, one slot per position of the order.
pub struct RevisionStore {
    items: ItemDates,
    dict: Vec<u8>,
    level: i32,
    slots: Vec<Option<Vec<u8>>>,
    docs: Ghost<Seq<Option<Seq<u8>>>>,
}

/// The view of an optional byte vector.
pub open spec fn opt_bytes(o: Option<Vec<u8>>) -> Option<Seq<u8>> {
    match o {
        Some(v) => Some(v@),
        None => None,
    }
}

impl View for RevisionStore {
    type V = RevisionStoreView;

    closed spec fn view(&self) -> RevisionStoreView {
        RevisionStoreView {
            items: self.items@,
            dict: self.dict@,
            level: self.level,
            frames: self.slots@.map_values(|o: Option<Vec<u8>>| opt_bytes(o)),
            documents: self.docs@,
        }
    }
}

/// What offering a revision of page `title` at `date` does: `Err` when the
/// title is no entity id, `None` when the table does not want the item at
/// that date, else the item's position.
pub open spec fn offer_target(items: ItemDatesView, title: Seq<char>, date: Seq<char>) -> Result<
    Option<nat>,
    StoreError,
> {
    match spec_entity_to_int(title) {
        None => Err(StoreError::InvalidTitle),
        Some(k) => if items.dates.contains_key(k) && items.dates[k].0 == date {
            Ok(Some(items.dates[k].1))
        } else {
            Ok(None)
        },
    }
}

impl RevisionStore {
    /// One slot and one document per position of the table; each frame is
    /// the compression of its document.
    pub closed spec fn wf(&self) -> bool {
        &&& self.items.wf()
        &&& self.slots@.len() == self.items@.count
        &&& self.docs@.len() == self.items@.count
        &&& forall|i: int|
            0 <= i < self.slots@.len() ==> match (#[trigger] self.slots@[i], self.docs@[i]) {
                (Some(c), Some(d)) => crate::compress::zstd_compressed(self.dict@, d, self.level)
                    == Some(c@),
                (None, None) => true,
                _ => false,
            }
    }

    /// An empty store for the table `items`, with a dictionary trained from
    /// `samples` of at most `dict_size` bytes, compressing at `level`.
    pub fn with_samples(items: ItemDates, samples: &Vec<String>, dict_size: usize, level: i32) -> (r:
        Result<RevisionStore, StoreError>)
        requires
            items.wf(),
        ensures
            match crate::compress::zstd_trained_dictionary(views(samples@), dict_size) {
                None => r == Err::<RevisionStore, StoreError>(StoreError::DictionaryTraining),
                Some(d) => match r {
                    Ok(s) => {
                        &&& s.wf()
                        &&& s@.items == items@
                        &&& s@.dict == d
                        &&& d.len() <= dict_size
                        &&& s@.level == level
                        &&& s@.frames == Seq::new(items@.count, |i: int| None::<Seq<u8>>)
                        &&& s@.documents == Seq::new(items@.count, |i: int| None::<Seq<u8>>)
                    },
                    Err(_) => false,
                },
            },
    {
        let dict = match crate::compress::dictionary_from_samples(samples, dict_size) {
            Some(d) => d,
            None => return Err(StoreError::DictionaryTraining),
        };
        let n = items.count();
        let mut slots: Vec<Option<Vec<u8>>> = Vec::new();
        let mut i: usize = 0;
        while i < n
            invariant
                i <= n,
                slots@.len() == i,
                forall|j: int| 0 <= j < i ==> slots@[j] is None,
            decreases n - i,
        {
            slots.push(None);
            i = i + 1;
        }
        let s = RevisionStore {
            items,
            dict,
            level,
            slots,
            docs: Ghost(Seq::new(n as nat, |i: int| None::<Seq<u8>>)),
        };
        assert(s@.frames =~= Seq::new(n as nat, |i: int| None::<Seq<u8>>));
        Ok(s)
    }

    /// The number of slots: one per line of the date order.
    pub fn len(&self) -> (r: usize)
        requires
            self.wf(),
        ensures
            r == self@.documents.len(),
            r == self@.frames.len(),
    {
        self.slots.len()
    }

    /// The compressed frame kept at position `i`, if any.
    pub fn frame(&self, i: usize) -> (r: Option<&Vec<u8>>)
        requires
            self.wf(),
            i < self@.frames.len(),
        ensures
            match r {
                Some(c) => self@.frames[i as int] == Some(c@),
                None => self@.frames[i as int] is None,
            },
    {
        match &self.slots[i] {
            Some(c) => Some(c),
            None => None,
        }
    }

    /// Offers the revision of page `title` at `date` with `text`: when the
    /// table wants the page's item at that date, the text is compressed and
    /// kept at the item's position, replacing what was kept there.
    pub fn offer(&mut self, title: &str, date: &str, text: &str) -> (r: Result<
        Option<usize>,
        StoreError,
    >)
        requires
            old(self).wf(),
        ensures
            final(self).wf(),
            final(self)@.items == old(self)@.items,
            final(self)@.dict == old(self)@.dict,
            final(self)@.level == old(self)@.level,
            match offer_target(old(self)@.items, title@, date@) {
                Err(e) => r == Err::<Option<usize>, StoreError>(e) && final(self)@ == old(self)@,
                Ok(None) => r == Ok::<Option<usize>, StoreError>(None) && final(self)@ == old(self)@,
                Ok(Some(i)) => match crate::compress::zstd_compressed(
                    old(self)@.dict,
                    vstd::utf8::encode_utf8(text@),
                    old(self)@.level,
                ) {
                    None => r == Err::<Option<usize>, StoreError>(StoreError::Compression)
                        && final(self)@ == old(self)@,
                    Some(c) => {
                        &&& r == Ok::<Option<usize>, StoreError>(Some(i as usize))
                        &&& final(self)@.frames == old(self)@.frames.update(i as int, Some(c))
                        &&& final(self)@.documents == old(self)@.documents.update(
                            i as int,
                            Some(vstd::utf8::encode_utf8(text@)),
                        )
                    },
                },
            },
    {
        let k = match entity_to_int(title) {
            Some(k) => k,
            None => return Err(StoreError::InvalidTitle),
        };
        let idx = match self.items.get(k) {
            None => return Ok(None),
            Some((wanted, idx)) => {
                if !same_text(wanted.as_str(), date) {
                    return Ok(None);
                }
                idx
            },
        };
        let mut c = match crate::compress::compress_with_dict(
            &self.dict,
            text.as_bytes(),
            self.level,
        ) {
            Some(c) => c,
            None => return Err(StoreError::Compression),
        };
        crate::compress::shrink_to_fit(&mut c);
        let ghost cv = c@;
        self.slots.set(idx, Some(c));
        self.docs = Ghost(self.docs@.update(idx as int, Some(vstd::utf8::encode_utf8(text@))));
        proof {
            assert(self@.frames =~= old(self)@.frames.update(idx as int, Some(cv)));
        }
        Ok(Some(idx))
    }

    /// The document kept at position `i`: `None` when nothing is kept there,
    /// else the decompressed frame, which is the kept text whenever that
    /// text is shorter than `DOCUMENT_CAPACITY` bytes.
    pub fn document(&self, i: usize) -> (r: Result<Option<Vec<u8>>, StoreError>)
        requires
            self.wf(),
            i < self@.documents.len(),
        ensures
            match self@.frames[i as int] {
                None => r == Ok::<Option<Vec<u8>>, StoreError>(None),
                Some(c) => match crate::compress::zstd_decompressed(
                    self@.dict,
                    c,
                    DOCUMENT_CAPACITY,
                ) {
                    None => r == Err::<Option<Vec<u8>>, StoreError>(StoreError::Decompression),
                    Some(d) => r matches Ok(Some(v)) && v@ == d,
                },
            },
            match self@.documents[i as int] {
                None => r == Ok::<Option<Vec<u8>>, StoreError>(None),
                Some(text) => text.len() < DOCUMENT_CAPACITY ==> (r matches Ok(Some(v)) && v@ == text),
            },
    {
        match &self.slots[i] {
            None => Ok(None),
            Some(c) => {
                proof {
                    assert(self@.frames[i as int] == Some(c@));
                }
                match crate::compress::decompress_with_dict(&self.dict, c.as_slice(), DOCUMENT_CAPACITY) {
                    Some(d) => Ok(Some(d)),
                    None => Err(StoreError::Decompression),
                }
            },
        }
    }
}


/// The item that line `i` of `lines` names.
pub open spec fn item_at(lines: Seq<Seq<char>>, i: int) -> u64 {
    item_of_line(lines[i])->Ok_0.0
}

/// Every line of `lines` is readable.
pub open spec fn all_items_ok(lines: Seq<Seq<char>>) -> bool {
    forall|i: int| 0 <= i < lines.len() ==> #[trigger] item_of_line(lines[i]) is Ok
}

proof fn lemma_init_items_ok(lines: Seq<Seq<char>>)
    requires
        lines.len() > 0,
        all_items_ok(lines),
    ensures
        all_items_ok(lines.drop_last()),
        item_of_line(lines.last()) is Ok,
{
    let init = lines.drop_last();
    assert forall|i: int| 0 <= i < init.len() implies #[trigger] item_of_line(init[i]) is Ok by {
        assert(init[i] == lines[i]);
    }
    assert(item_of_line(lines[lines.len() - 1]) is Ok);
}

/// Reading a date order file in which every line is readable gives each
/// line the next position.
pub proof fn law_date_order_count(t: ItemDatesView, lines: Seq<Seq<char>>)
    requires
        all_items_ok(lines),
    ensures
        dates_after(t, lines).count == t.count + lines.len(),
    decreases lines.len(),
{
    if lines.len() > 0 {
        lemma_init_items_ok(lines);
        law_date_order_count(t, lines.drop_last());
    }
}

/// The mapper of the date order file: a readable item takes its date and
/// the line's position counted from `start`.
pub open spec fn date_order_mapper(start: nat) -> spec_fn(nat, Seq<char>, Seq<char>) -> Option<
    (u64, (Seq<char>, nat)),
> {
    |i: nat, item: Seq<char>, date: Seq<char>|
        match spec_entity_to_int(item) {
            Some(k) => Some((k, (date, start + i))),
            None => None,
        }
}

/// Reading a date order file whose lines are all readable is reading its
/// lines through `date_order_mapper`, in order, one call per line.
pub proof fn law_date_order_is_mapped(t: ItemDatesView, lines: Seq<Seq<char>>)
    requires
        all_items_ok(lines),
    ensures
        dates_after(t, lines).dates == crate::text::mapped_after(
            t.dates,
            lines,
            date_order_mapper(t.count),
        ),
    decreases lines.len(),
{
    if lines.len() > 0 {
        lemma_init_items_ok(lines);
        let init = lines.drop_last();
        law_date_order_is_mapped(t, init);
        law_date_order_count(t, init);
        assert(lines[lines.len() - 1] == lines.last());
    }
}

/// Reading a date order file in which every line is readable gives an item
/// the date and the position of its last line.
#[verifier::rlimit(30)]
pub proof fn law_date_order_last_line_wins(t: ItemDatesView, lines: Seq<Seq<char>>, i: int)
    requires
        all_items_ok(lines),
        0 <= i < lines.len(),
        forall|j: int| i < j < lines.len() ==> item_at(lines, j) != item_at(lines, i),
    ensures
        dates_after(t, lines).dates.contains_key(item_at(lines, i)),
        dates_after(t, lines).dates[item_at(lines, i)] == (
            item_of_line(lines[i])->Ok_0.1,
            (t.count + i) as nat,
        ),
    decreases lines.len(),
{
    lemma_init_items_ok(lines);
    let init = lines.drop_last();
    let n = lines.len() - 1;
    law_date_order_count(t, init);
    if i < n {
        assert(init[i] == lines[i]);
        assert forall|j: int| i < j < init.len() implies item_at(init, j) != item_at(init, i) by {
            assert(init[j] == lines[j]);
            assert(item_at(lines, j) != item_at(lines, i));
        }
        law_date_order_last_line_wins(t, init, i);
        assert(item_at(lines, n) != item_at(lines, i));
    }
}

/// Reading a date order file in which every line is readable leaves the
/// entry of an item that no line names as it was.
pub proof fn law_date_order_other_items(t: ItemDatesView, lines: Seq<Seq<char>>, k: u64)
    requires
        all_items_ok(lines),
        forall|j: int| 0 <= j < lines.len() ==> item_at(lines, j) != k,
    ensures
        dates_after(t, lines).dates.contains_key(k) == t.dates.contains_key(k),
        dates_after(t, lines).dates[k] == t.dates[k],
    decreases lines.len(),
{
    if lines.len() > 0 {
        lemma_init_items_ok(lines);
        let init = lines.drop_last();
        assert forall|j: int| 0 <= j < init.len() implies item_at(init, j) != k by {
            assert(init[j] == lines[j]);
            assert(item_at(lines, j) != k);
        }
        law_date_order_other_items(t, init, k);
        assert(item_at(lines, lines.len() - 1) != k);
    }
}

/// A revision comes out only from the character data of a text element,
/// in a page of namespace 0 or 120, with the latest title and timestamp
/// seen; and yielding leaves the state as it was.
pub proof fn law_yield_conditions(s: RevTextView, e: XmlEventView)
    requires
        rev_text_step(s, e) matches Ok((_, out)) && out is Some,
    ensures
        ({
            let (s2, out) = rev_text_step(s, e)->Ok_0;
            let (title, date, text) = out->Some_0;
            &&& e == XmlEventView::Characters(text)
            &&& s.in_text && !s.in_date && !s.in_title && !s.in_ns
            &&& s.ns == 0 || s.ns == 120
            &&& s.rev_title == Some(title)
            &&& s.rev_date == Some(date)
            &&& s2 == s
        }),
{
}

/// An element that starts and ends again leaves the depth as it was and
/// clears the text, title, timestamp and namespace marks; only a revision
/// element clears the revision mark.
pub proof fn law_element_restores_depth(s: RevTextView, start: Seq<char>, end: Seq<char>)
    requires
        s.depth < i32::MAX,
    ensures
        ({
            let s1 = rev_text_step(s, XmlEventView::StartElement(start))->Ok_0.0;
            let r2 = rev_text_step(s1, XmlEventView::EndElement(end));
            &&& r2 is Ok
            &&& r2->Ok_0.0.depth == s.depth
            &&& !r2->Ok_0.0.in_text && !r2->Ok_0.0.in_title && !r2->Ok_0.0.in_date
                && !r2->Ok_0.0.in_ns
            &&& r2->Ok_0.0.in_revision == ((s.in_revision || start == "revision"@) && end
                != "revision"@)
            &&& r2->Ok_0.1 is None
        }),
{
}

/// The state reached and the `(title, date, text)` triples yielded, in
/// order, when the events are taken one after another from `s`; the first
/// error stops the run.
pub open spec fn rev_text_run(s: RevTextView, events: Seq<XmlEventView>) -> Result<
    (RevTextView, Seq<(Seq<char>, Seq<char>, Seq<char>)>),
    RevTextError,
>
    decreases events.len(),
{
    if events.len() == 0 {
        Ok((s, Seq::empty()))
    } else {
        match rev_text_run(s, events.drop_last()) {
            Err(e) => Err(e),
            Ok((s1, out)) => match rev_text_step(s1, events.last()) {
                Err(e) => Err(e),
                Ok((s2, o)) => Ok(
                    (
                        s2,
                        match o {
                            Some(t) => out.push(t),
                            None => out,
                        },
                    ),
                ),
            },
        }
    }
}

/// A run over two pieces of an event stream is the run over the first piece
/// followed by the run over the second from where the first stopped.
pub proof fn law_run_in_pieces(s: RevTextView, a: Seq<XmlEventView>, b: Seq<XmlEventView>)
    ensures
        rev_text_run(s, a + b) == match rev_text_run(s, a) {
            Err(e) => Err(e),
            Ok((s1, o1)) => match rev_text_run(s1, b) {
                Err(e) => Err(e),
                Ok((s2, o2)) => Ok((s2, o1 + o2)),
            },
        },
    decreases b.len(),
{
    if b.len() == 0 {
        assert(a + b =~= a);
        match rev_text_run(s, a) {
            Err(_) => {},
            Ok((s1, o1)) => {
                assert(o1 + Seq::<(Seq<char>, Seq<char>, Seq<char>)>::empty() =~= o1);
            },
        }
    } else {
        law_run_in_pieces(s, a, b.drop_last());
        assert((a + b).drop_last() =~= a + b.drop_last());
        assert((a + b).last() == b.last());
        match rev_text_run(s, a) {
            Err(_) => {},
            Ok((s1, o1)) => {
                match rev_text_run(s1, b.drop_last()) {
                    Err(_) => {},
                    Ok((s2, o2)) => {
                        match rev_text_step(s2, b.last()) {
                            Err(_) => {},
                            Ok((s3, o)) => {
                                match o {
                                    Some(t) => {
                                        assert((o1 + o2).push(t) =~= o1 + o2.push(t));
                                    },
                                    None => {},
                                }
                            },
                        }
                    },
                }
            },
        }
    }
}

/// One revision of a page: its timestamp and its text.
pub ghost struct RevisionView {
    pub timestamp: Seq<char>,
    pub text: Seq<char>,
}

/// One page of an XML dump: its title, its namespace as written, and its
/// revisions in order.
pub ghost struct PageView {
    pub title: Seq<char>,
    pub ns: Seq<char>,
    pub revisions: Seq<RevisionView>,
}

/// The events of one revision: `<revision><timestamp>..</timestamp>
/// <text>..</text></revision>`.
pub open spec fn revision_events(r: RevisionView) -> Seq<XmlEventView> {
    seq![
        XmlEventView::StartElement("revision"@),
        XmlEventView::StartElement("timestamp"@),
        XmlEventView::Characters(r.timestamp),
        XmlEventView::EndElement("timestamp"@),
        XmlEventView::StartElement("text"@),
        XmlEventView::Characters(r.text),
        XmlEventView::EndElement("text"@),
        XmlEventView::EndElement("revision"@),
    ]
}

/// The events of the revisions, one after another.
pub open spec fn revisions_events(revs: Seq<RevisionView>) -> Seq<XmlEventView>
    decreases revs.len(),
{
    if revs.len() == 0 {
        Seq::empty()
    } else {
        revisions_events(revs.drop_last()) + revision_events(revs.last())
    }
}

/// The events that open a page: `<page><title>..</title><ns>..</ns>`.
pub open spec fn page_head_events(p: PageView) -> Seq<XmlEventView> {
    seq![
        XmlEventView::StartElement("page"@),
        XmlEventView::StartElement("title"@),
        XmlEventView::Characters(p.title),
        XmlEventView::EndElement("title"@),
        XmlEventView::StartElement("ns"@),
        XmlEventView::Characters(p.ns),
        XmlEventView::EndElement("ns"@),
    ]
}

/// The events of one page: its head, its revisions, and `</page>`.
pub open spec fn page_events(p: PageView) -> Seq<XmlEventView> {
    page_head_events(p) + revisions_events(p.revisions) + seq![
        XmlEventView::EndElement("page"@),
    ]
}

/// The events of the pages, one page after another.
pub open spec fn pages_events(pages: Seq<PageView>) -> Seq<XmlEventView>
    decreases pages.len(),
{
    if pages.len() == 0 {
        Seq::empty()
    } else {
        pages_events(pages.drop_last()) + page_events(pages.last())
    }
}

/// The events of a dump: the pages inside one `mediawiki` element.
pub open spec fn dump_events(pages: Seq<PageView>) -> Seq<XmlEventView> {
    seq![XmlEventView::StartElement("mediawiki"@)] + pages_events(pages) + seq![
        XmlEventView::EndElement("mediawiki"@),
    ]
}

/// The page's namespace is that of items (0) or of properties (120).
pub open spec fn wanted_page(p: PageView) -> bool {
    crate::number::spec_parse_i32(p.ns) == Some(0i32) || crate::number::spec_parse_i32(p.ns)
        == Some(120i32)
}

/// The `(title, timestamp, text)` of each of the revisions, under `title`.
pub open spec fn titled_revisions(title: Seq<char>, revs: Seq<RevisionView>) -> Seq<
    (Seq<char>, Seq<char>, Seq<char>),
>
    decreases revs.len(),
{
    if revs.len() == 0 {
        Seq::empty()
    } else {
        titled_revisions(title, revs.drop_last()).push(
            (title, revs.last().timestamp, revs.last().text),
        )
    }
}

/// The `(title, timestamp, text)` of every revision of the wanted pages, in
/// document order.
pub open spec fn wanted_revisions(pages: Seq<PageView>) -> Seq<(Seq<char>, Seq<char>, Seq<char>)>
    decreases pages.len(),
{
    if pages.len() == 0 {
        Seq::empty()
    } else {
        let rest = wanted_revisions(pages.drop_last());
        let p = pages.last();
        if wanted_page(p) {
            rest + titled_revisions(p.title, p.revisions)
        } else {
            rest
        }
    }
}

/// A state between pages: one element deep, inside no element that the
/// selection marks.
pub open spec fn between_pages(s: RevTextView) -> bool {
    &&& s.depth == 1
    &&& !s.in_text
    &&& !s.in_revision
    &&& !s.in_date
    &&& !s.in_title
    &&& !s.in_ns
}

/// A state inside a page, between its revisions: two elements deep, inside
/// no element that the selection marks, with the page's title and namespace.
pub open spec fn in_page(s: RevTextView, title: Seq<char>, ns: i32) -> bool {
    &&& s.depth == 2
    &&& !s.in_text
    &&& !s.in_revision
    &&& !s.in_date
    &&& !s.in_title
    &&& !s.in_ns
    &&& s.rev_title == Some(title)
    &&& s.ns == ns
}

proof fn lemma_names_differ()
    ensures
        "page"@ != "title"@,
        "page"@ != "ns"@,
        "page"@ != "text"@,
        "page"@ != "revision"@,
        "page"@ != "timestamp"@,
        "title"@ != "ns"@,
        "title"@ != "text"@,
        "title"@ != "revision"@,
        "title"@ != "timestamp"@,
        "ns"@ != "text"@,
        "ns"@ != "revision"@,
        "ns"@ != "timestamp"@,
        "revision"@ != "text"@,
        "revision"@ != "timestamp"@,
        "timestamp"@ != "text"@,
        "mediawiki"@ != "text"@,
        "mediawiki"@ != "revision"@,
{
    reveal_strlit("page");
    reveal_strlit("title");
    reveal_strlit("ns");
    reveal_strlit("text");
    reveal_strlit("revision");
    reveal_strlit("timestamp");
    reveal_strlit("mediawiki");
    assert("page"@.len() != "title"@.len());
    assert("page"@.len() != "ns"@.len());
    assert("page"@[0] != "text"@[0]);
    assert("page"@.len() != "revision"@.len());
    assert("page"@.len() != "timestamp"@.len());
    assert("title"@.len() != "ns"@.len());
    assert("title"@.len() != "text"@.len());
    assert("title"@.len() != "revision"@.len());
    assert("title"@.len() != "timestamp"@.len());
    assert("ns"@.len() != "text"@.len());
    assert("ns"@.len() != "revision"@.len());
    assert("ns"@.len() != "timestamp"@.len());
    assert("revision"@.len() != "text"@.len());
    assert("revision"@.len() != "timestamp"@.len());
    assert("timestamp"@.len() != "text"@.len());
    assert("mediawiki"@.len() != "text"@.len());
    assert("mediawiki"@.len() != "revision"@.len());
}

proof fn lemma_run_one(s: RevTextView, e: XmlEventView)
    ensures
        rev_text_run(s, seq![e]) == match rev_text_step(s, e) {
            Err(err) => Err(err),
            Ok((s2, o)) => Ok(
                (
                    s2,
                    match o {
                        Some(t) => seq![t],
                        None => Seq::empty(),
                    },
                ),
            ),
        },
{
    reveal_with_fuel(rev_text_run, 2);
    assert(seq![e].drop_last() =~= Seq::<XmlEventView>::empty());
    assert(seq![e].last() == e);
    match rev_text_step(s, e) {
        Ok((_, Some(t))) => {
            assert(Seq::<(Seq<char>, Seq<char>, Seq<char>)>::empty().push(t) =~= seq![t]);
        },
        _ => {},
    }
}

/// The run over one revision inside a page: the revision's triple when
/// the page's namespace is 0 or 120, and a state inside the page again.
proof fn lemma_run_revision(s: RevTextView, title: Seq<char>, ns: i32, r: RevisionView)
    requires
        in_page(s, title, ns),
    ensures
        rev_text_run(s, revision_events(r)) matches Ok((s2, out)) && in_page(s2, title, ns)
            && out == (if ns == 0 || ns == 120 {
            seq![(title, r.timestamp, r.text)]
        } else {
            Seq::empty()
        }),
{
    lemma_names_differ();
    reveal_with_fuel(rev_text_run, 9);
}

proof fn lemma_run_revisions(s: RevTextView, title: Seq<char>, ns: i32, revs: Seq<RevisionView>)
    requires
        in_page(s, title, ns),
    ensures
        rev_text_run(s, revisions_events(revs)) matches Ok((s2, out)) && in_page(s2, title, ns)
            && out == (if ns == 0 || ns == 120 {
            titled_revisions(title, revs)
        } else {
            Seq::empty()
        }),
    decreases revs.len(),
{
    if revs.len() == 0 {
        reveal_with_fuel(rev_text_run, 1);
    } else {
        let init = revs.drop_last();
        lemma_run_revisions(s, title, ns, init);
        law_run_in_pieces(s, revisions_events(init), revision_events(revs.last()));
        let s1 = rev_text_run(s, revisions_events(init))->Ok_0.0;
        lemma_run_revision(s1, title, ns, revs.last());
        let o1 = if ns == 0 || ns == 120 {
            titled_revisions(title, init)
        } else {
            Seq::empty()
        };
        if ns == 0 || ns == 120 {
            let t = (title, revs.last().timestamp, revs.last().text);
            assert(o1 + seq![t] =~= o1.push(t));
        } else {
            assert(o1 + Seq::<(Seq<char>, Seq<char>, Seq<char>)>::empty() =~= o1);
        }
    }
}

/// The run over one page from a state between pages: an error when the
/// namespace is no `i32`, else a state between pages again and the triples
/// of the page's revisions when the page is wanted.
#[verifier::rlimit(40)]
proof fn lemma_run_page(s: RevTextView, p: PageView)
    requires
        between_pages(s),
    ensures
        match rev_text_run(s, page_events(p)) {
            Err(e) => crate::number::spec_parse_i32(p.ns) is None && e
                == RevTextError::InvalidNamespace,
            Ok((s2, out)) => {
                &&& crate::number::spec_parse_i32(p.ns) is Some
                &&& between_pages(s2)
                &&& out == (if wanted_page(p) {
                    titled_revisions(p.title, p.revisions)
                } else {
                    Seq::empty()
                })
            },
        },
{
    lemma_names_differ();
    let head = page_head_events(p);
    let body = revisions_events(p.revisions);
    let close = seq![XmlEventView::EndElement("page"@)];
    assert(page_events(p) == (head + body) + close);
    law_run_in_pieces(s, head + body, close);
    law_run_in_pieces(s, head, body);
    reveal_with_fuel(rev_text_run, 8);
    match crate::number::spec_parse_i32(p.ns) {
        None => {},
        Some(ns) => {
            let s1 = rev_text_run(s, head)->Ok_0.0;
            let o1 = rev_text_run(s, head)->Ok_0.1;
            assert(in_page(s1, p.title, ns));
            assert(o1 =~= Seq::<(Seq<char>, Seq<char>, Seq<char>)>::empty());
            lemma_run_revisions(s1, p.title, ns, p.revisions);
            let s2 = rev_text_run(s1, body)->Ok_0.0;
            let o2 = rev_text_run(s1, body)->Ok_0.1;
            lemma_run_one(s2, XmlEventView::EndElement("page"@));
            assert(o1 + o2 =~= o2);
            assert((o1 + o2) + Seq::<(Seq<char>, Seq<char>, Seq<char>)>::empty() =~= o2);
        },
    }
}

proof fn lemma_run_pages(s: RevTextView, pages: Seq<PageView>)
    requires
        between_pages(s),
        forall|i: int| 0 <= i < pages.len() ==> (#[trigger] crate::number::spec_parse_i32(
            pages[i].ns,
        )) is Some,
    ensures
        rev_text_run(s, pages_events(pages)) matches Ok((s2, out)) && between_pages(s2) && out
            == wanted_revisions(pages),
    decreases pages.len(),
{
    if pages.len() == 0 {
        reveal_with_fuel(rev_text_run, 1);
    } else {
        let init = pages.drop_last();
        assert forall|i: int| 0 <= i < init.len() implies (#[trigger] crate::number::spec_parse_i32(
            init[i].ns,
        )) is Some by {
            assert(init[i] == pages[i]);
        }
        lemma_run_pages(s, init);
        law_run_in_pieces(s, pages_events(init), page_events(pages.last()));
        let s1 = rev_text_run(s, pages_events(init))->Ok_0.0;
        assert(crate::number::spec_parse_i32(pages[pages.len() - 1].ns) is Some);
        lemma_run_page(s1, pages.last());
        let o1 = wanted_revisions(init);
        if !wanted_page(pages.last()) {
            assert(o1 + Seq::<(Seq<char>, Seq<char>, Seq<char>)>::empty() =~= o1);
        }
    }
}

/// Over a dump whose pages all write their namespace as an `i32`, the
/// selection yields, in document order, the title, timestamp and text of
/// every revision of each page in namespace 0 or 120, and nothing of the
/// other pages.
pub proof fn law_dump_yields_wanted_revisions(pages: Seq<PageView>)
    requires
        forall|i: int| 0 <= i < pages.len() ==> (#[trigger] crate::number::spec_parse_i32(
            pages[i].ns,
        )) is Some,
    ensures
        rev_text_run(rev_text_start(), dump_events(pages)) matches Ok((_, out)) && out
            == wanted_revisions(pages),
{
    lemma_names_differ();
    let open = seq![XmlEventView::StartElement("mediawiki"@)];
    let close = seq![XmlEventView::EndElement("mediawiki"@)];
    let body = pages_events(pages);
    assert(dump_events(pages) == (open + body) + close);
    law_run_in_pieces(rev_text_start(), open + body, close);
    law_run_in_pieces(rev_text_start(), open, body);
    lemma_run_one(rev_text_start(), XmlEventView::StartElement("mediawiki"@));
    let s1 = rev_text_run(rev_text_start(), open)->Ok_0.0;
    assert(between_pages(s1));
    lemma_run_pages(s1, pages);
    let s2 = rev_text_run(s1, body)->Ok_0.0;
    lemma_run_one(s2, XmlEventView::EndElement("mediawiki"@));
    let out = wanted_revisions(pages);
    assert(Seq::<(Seq<char>, Seq<char>, Seq<char>)>::empty() + out =~= out);
    assert(out + Seq::<(Seq<char>, Seq<char>, Seq<char>)>::empty() =~= out);
}

/// Character data outside a title, ns, timestamp or text element leaves
/// the selection as it was and yields nothing.
pub proof fn law_other_character_data_is_ignored(s: RevTextView, d: Seq<char>)
    requires
        !s.in_date,
        !s.in_title,
        !s.in_ns,
        !s.in_text,
    ensures
        rev_text_step(s, XmlEventView::Characters(d)) == Ok::<
            (RevTextView, Option<(Seq<char>, Seq<char>, Seq<char>)>),
            RevTextError,
        >((s, None)),
{
}

/// The remembered timestamp, title and namespace each change only on the
/// character data of their own element, and then to that data; character
/// data changes neither the depth nor the element marks.
pub proof fn law_values_change_only_in_their_element(s: RevTextView, e: XmlEventView)
    requires
        rev_text_step(s, e) is Ok,
    ensures
        ({
            let s2 = rev_text_step(s, e)->Ok_0.0;
            &&& s2.rev_date != s.rev_date ==> s.in_date && (e matches XmlEventView::Characters(d)
                && s2.rev_date == Some(d))
            &&& s2.rev_title != s.rev_title ==> s.in_title && (e matches XmlEventView::Characters(
                d,
            ) && s2.rev_title == Some(d))
            &&& s2.ns != s.ns ==> s.in_ns && (e matches XmlEventView::Characters(d)
                && crate::number::spec_parse_i32(d) == Some(s2.ns))
            &&& e is Characters ==> s2.depth == s.depth && s2.in_text == s.in_text && s2.in_title
                == s.in_title && s2.in_ns == s.in_ns && s2.in_date == s.in_date && s2.in_revision
                == s.in_revision
        }),
{
}

/// An element mark is set only by the start of its own element (a title or
/// ns two elements deep, a timestamp three deep inside a revision, any text
/// element) and stays only while no element starts or ends; an end clears
/// every mark but the revision mark, which only a revision's end clears.
pub proof fn law_marks_follow_elements(s: RevTextView, e: XmlEventView)
    requires
        rev_text_step(s, e) is Ok,
    ensures
        ({
            let s2 = rev_text_step(s, e)->Ok_0.0;
            let keeps = e is Characters || e is Other;
            &&& s2.in_title ==> (e == XmlEventView::StartElement("title"@) && s.depth == 2) || (
            keeps && s.in_title)
            &&& s2.in_ns ==> (e == XmlEventView::StartElement("ns"@) && s.depth == 2) || (keeps
                && s.in_ns)
            &&& s2.in_date ==> (e == XmlEventView::StartElement("timestamp"@) && s.depth == 3
                && s.in_revision) || (keeps && s.in_date)
            &&& s2.in_text ==> e == XmlEventView::StartElement("text"@) || (keeps && s.in_text)
            &&& e is EndElement ==> !s2.in_title && !s2.in_ns && !s2.in_date && !s2.in_text
            &&& s2.in_revision != s.in_revision ==> (e == XmlEventView::StartElement("revision"@)
                && s2.in_revision) || (e == XmlEventView::EndElement("revision"@) && !s2.in_revision)
        }),
{
}

/// Offering keeps a revision only when the table wants the title's item at
/// exactly the offered date, character for character, and then at the
/// item's position; at any other date the offer is declined.
pub proof fn law_offer_only_at_wanted_date(items: ItemDatesView, title: Seq<char>, date: Seq<char>)
    ensures
        match offer_target(items, title, date) {
            Ok(Some(i)) => match spec_entity_to_int(title) {
                Some(k) => items.dates.contains_key(k) && items.dates[k] == (date, i),
                None => false,
            },
            _ => true,
        },
        match spec_entity_to_int(title) {
            Some(k) => (!items.dates.contains_key(k) || items.dates[k].0 != date) ==> offer_target(
                items,
                title,
                date,
            ) == Ok::<Option<nat>, StoreError>(None),
            None => offer_target(items, title, date) == Err::<Option<nat>, StoreError>(
                StoreError::InvalidTitle,
            ),
        },
{
}

/// In a date order file whose lines are all readable, the last line that
/// names an item (by the entity id in its first field) gives the item
/// exactly the text of its second field as wanted date, and its position.
pub proof fn law_date_order_keeps_line_text(t: ItemDatesView, lines: Seq<Seq<char>>, i: int)
    requires
        all_items_ok(lines),
        0 <= i < lines.len(),
        forall|j: int| i < j < lines.len() ==> item_at(lines, j) != item_at(lines, i),
    ensures
        spec_split_pair(lines[i]) matches Some((item, date)) && spec_entity_to_int(item) matches Some(
            k,
        ) && dates_after(t, lines).dates.contains_key(k) && dates_after(t, lines).dates[k] == (
            date,
            (t.count + i) as nat,
        ),
{
    assert(item_of_line(lines[i]) is Ok);
    law_date_order_last_line_wins(t, lines, i);
}

/// Something a dump may hold between the elements that the selection
/// reads: whitespace or other character data, or an element of another
/// name (`id`, `comment`, `model`, `format`, `sha1`, ...) with its text.
pub ghost enum FillerView {
    Data(Seq<char>),
    Element(Seq<char>, Seq<char>),
}

/// The element name is none that the selection reads.
pub open spec fn other_name(n: Seq<char>) -> bool {
    &&& n != "title"@
    &&& n != "ns"@
    &&& n != "revision"@
    &&& n != "timestamp"@
    &&& n != "text"@
}

/// The events of one filler.
pub open spec fn filler_events(f: FillerView) -> Seq<XmlEventView> {
    match f {
        FillerView::Data(d) => seq![XmlEventView::Characters(d)],
        FillerView::Element(n, d) => seq![
            XmlEventView::StartElement(n),
            XmlEventView::Characters(d),
            XmlEventView::EndElement(n),
        ],
    }
}

/// The events of the fillers, one after another.
pub open spec fn fillers_events(fs: Seq<FillerView>) -> Seq<XmlEventView>
    decreases fs.len(),
{
    if fs.len() == 0 {
        Seq::empty()
    } else {
        fillers_events(fs.drop_last()) + filler_events(fs.last())
    }
}

/// No element mark is set.
pub open spec fn unmarked(s: RevTextView) -> bool {
    !s.in_text && !s.in_title && !s.in_ns && !s.in_date
}

/// Fillers between elements change nothing: from a state that is inside no
/// title, ns, timestamp or text element, whitespace, other character data
/// and elements of other names leave the state exactly as it was and yield
/// nothing.
pub proof fn law_fillers_are_ignored(s: RevTextView, fs: Seq<FillerView>)
    requires
        unmarked(s),
        s.depth < i32::MAX,
        forall|i: int| 0 <= i < fs.len() ==> (#[trigger] fs[i] matches FillerView::Element(n, _)
            ==> other_name(n)),
    ensures
        rev_text_run(s, fillers_events(fs)) == Ok::<
            (RevTextView, Seq<(Seq<char>, Seq<char>, Seq<char>)>),
            RevTextError,
        >((s, Seq::empty())),
    decreases fs.len(),
{
    if fs.len() == 0 {
        reveal_with_fuel(rev_text_run, 1);
    } else {
        let init = fs.drop_last();
        assert forall|i: int| 0 <= i < init.len() implies (#[trigger] init[i] matches FillerView::Element(
            n,
            _,
        ) ==> other_name(n)) by {
            assert(init[i] == fs[i]);
        }
        law_fillers_are_ignored(s, init);
        law_run_in_pieces(s, fillers_events(init), filler_events(fs.last()));
        assert(fs[fs.len() - 1] == fs.last());
        reveal_with_fuel(rev_text_run, 4);
        assert(Seq::<(Seq<char>, Seq<char>, Seq<char>)>::empty() + Seq::<
            (Seq<char>, Seq<char>, Seq<char>),
        >::empty() =~= Seq::<(Seq<char>, Seq<char>, Seq<char>)>::empty());
    }
}

} // verus!
