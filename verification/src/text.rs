//! Comma-separated fields and text comparison.

use vstd::prelude::*;

verus! {

/// The first item that `split(',')` yields: the text before the first comma,
/// or all of `s` when it holds no comma.
pub open spec fn first_field(s: Seq<char>) -> Seq<char>
    decreases s.len(),
{
    if s.len() == 0 {
        s
    } else if s[0] == ',' {
        Seq::empty()
    } else {
        seq![s[0]] + first_field(s.drop_first())
    }
}

/// The text after the first comma of `s`, when `s` holds a comma.
pub open spec fn after_comma(s: Seq<char>) -> Option<Seq<char>>
    decreases s.len(),
{
    if s.len() == 0 {
        None
    } else if s[0] == ',' {
        Some(s.drop_first())
    } else {
        after_comma(s.drop_first())
    }
}

/// The first two items that `split(',')` yields, when there are two.
pub open spec fn spec_split_pair(s: Seq<char>) -> Option<(Seq<char>, Seq<char>)> {
    match after_comma(s) {
        Some(rest) => Some((first_field(s), first_field(rest))),
        None => None,
    }
}

/// `first_field` and `after_comma` in terms of the position of the first comma.
proof fn lemma_fields_at(t: Seq<char>, k: int)
    requires
        0 <= k <= t.len(),
        forall|j: int| 0 <= j < k ==> t[j] != ',',
        k == t.len() || t[k] == ',',
    ensures
        first_field(t) =~= t.take(k),
        after_comma(t) == (if k < t.len() { Some(t.skip(k + 1)) } else { None::<Seq<char>> }),
    decreases t.len(),
{
    if t.len() == 0 {
    } else if k == 0 {
    } else {
        let u = t.drop_first();
        assert forall|j: int| 0 <= j < k - 1 implies u[j] != ',' by {
            assert(u[j] == t[j + 1]);
        }
        lemma_fields_at(u, k - 1);
        assert(t.take(k) =~= seq![t[0]] + u.take(k - 1));
        if k < t.len() {
            assert(u.skip(k) =~= t.skip(k + 1));
        }
    }
}

/// The char index of the first comma at or after `start`, or the length of `s`.
fn comma_from(s: &str, start: usize) -> (k: usize)
    requires
        start <= s@.len(),
    ensures
        start <= k <= s@.len(),
        forall|j: int| start <= j < k ==> s@[j] != ',',
        k == s@.len() || s@[k as int] == ',',
{
    let n = s.unicode_len();
    let mut k = start;
    while k < n
        invariant
            start <= k <= n,
            n == s@.len(),
            forall|j: int| start <= j < k ==> s@[j] != ',',
        decreases n - k,
    {
        if s.get_char(k) == ',' {
            return k;
        }
        k = k + 1;
    }
    k
}

/// Splits `line` at commas and returns its first two fields, as
/// `line.split(',')` yields them; `None` when the line holds no comma.
pub fn split_pair(line: &str) -> (r: Option<(String, String)>)
    ensures
        match r {
            Some((a, b)) => spec_split_pair(line@) == Some((a@, b@)),
            None => spec_split_pair(line@) is None,
        },
{
    let n = line.unicode_len();
    let k = comma_from(line, 0);
    proof {
        assert(line@.skip(0) =~= line@);
        lemma_fields_at(line@, k as int);
    }
    if k == n {
        return None;
    }
    let k2 = comma_from(line, k + 1);
    proof {
        let t = line@.skip(k + 1);
        assert forall|j: int| 0 <= j < k2 - (k + 1) implies t[j] != ',' by {
            assert(t[j] == line@[j + k + 1]);
        }
        lemma_fields_at(t, k2 - (k + 1));
        assert(t.take(k2 - (k + 1)) =~= line@.subrange(k + 1, k2 as int));
        assert(line@.take(k as int) =~= line@.subrange(0, k as int));
    }
    let a = line.substring_char(0, k).to_owned();
    let b = line.substring_char(k + 1, k2).to_owned();
    Some((a, b))
}

/// Whether two strings hold the same text.
pub fn same_text(a: &str, b: &str) -> (r: bool)
    ensures
        r == (a@ == b@),
{
    let n = a.unicode_len();
    if n != b.unicode_len() {
        return false;
    }
    let mut i: usize = 0;
    while i < n
        invariant
            i <= n,
            n == a@.len(),
            n == b@.len(),
            forall|j: int| 0 <= j < i ==> a@[j] == b@[j],
        decreases n - i,
    {
        if a.get_char(i) != b.get_char(i) {
            return false;
        }
        i = i + 1;
    }
    assert(a@ =~= b@);
    true
}

/// Why a line of an input stream cannot be read: it has no second
/// comma-separated field, its entity id cannot be packed, or its number is
/// no `u64`.
#[derive(Debug, PartialEq, Eq, Structural, Clone, Copy)]
pub enum LineError {
    MissingField,
    InvalidEntity,
    InvalidNumber,
}

/// The first line of a file that cannot be read, by index, and why.
#[derive(Debug, PartialEq, Eq, Structural, Clone, Copy)]
pub struct ReadError {
    pub line: usize,
    pub kind: LineError,
}

/// The texts of a sequence of strings.
pub open spec fn views(v: Seq<String>) -> Seq<Seq<char>> {
    v.map_values(|s: String| s@)
}

/// The texts of a pair of strings.
pub open spec fn pair_view(p: (String, String)) -> (Seq<char>, Seq<char>) {
    (p.0@, p.1@)
}

/// What `mapper` makes of line `i`: it is handed the line's position and
/// its first two fields; a line without a second field gives nothing.
pub open spec fn line_call<V>(
    lines: Seq<Seq<char>>,
    i: int,
    mapper: spec_fn(nat, Seq<char>, Seq<char>) -> Option<(u64, V)>,
) -> Option<(u64, V)> {
    match spec_split_pair(lines[i]) {
        Some((a, b)) => mapper(i as nat, a, b),
        None => None,
    }
}

/// The map after handing each line, in order, to `mapper`: a `Some((k, v))`
/// sets `k` to `v`, a `None` leaves the map as it is.
pub open spec fn mapped_after<V>(
    m: Map<u64, V>,
    lines: Seq<Seq<char>>,
    mapper: spec_fn(nat, Seq<char>, Seq<char>) -> Option<(u64, V)>,
) -> Map<u64, V>
    decreases lines.len(),
{
    if lines.len() == 0 {
        m
    } else {
        let m2 = mapped_after(m, lines.drop_last(), mapper);
        match line_call(lines, lines.len() - 1, mapper) {
            Some((k, v)) => m2.insert(k, v),
            None => m2,
        }
    }
}

proof fn lemma_line_call_prefix<V>(
    lines: Seq<Seq<char>>,
    i: int,
    mapper: spec_fn(nat, Seq<char>, Seq<char>) -> Option<(u64, V)>,
)
    requires
        0 <= i < lines.len() - 1,
    ensures
        line_call(lines.drop_last(), i, mapper) == line_call(lines, i, mapper),
{
    assert(lines.drop_last()[i] == lines[i]);
}

/// The call for line `i` gives key `k`.
pub open spec fn gives_key<V>(
    lines: Seq<Seq<char>>,
    i: int,
    mapper: spec_fn(nat, Seq<char>, Seq<char>) -> Option<(u64, V)>,
    k: u64,
) -> bool {
    line_call(lines, i, mapper) matches Some(p) && p.0 == k
}

/// Reading lines through any mapper: a key holds the value of the last call
/// that gave it, and a key that no call gave keeps its entry.
pub proof fn law_mapper_last_call_wins<V>(
    m: Map<u64, V>,
    lines: Seq<Seq<char>>,
    mapper: spec_fn(nat, Seq<char>, Seq<char>) -> Option<(u64, V)>,
    k: u64,
)
    ensures
        forall|i: int|
            0 <= i < lines.len() && #[trigger] gives_key(lines, i, mapper, k) && (forall|j: int|
                i < j < lines.len() ==> !#[trigger] gives_key(lines, j, mapper, k)) ==> {
                &&& mapped_after(m, lines, mapper).contains_key(k)
                &&& mapped_after(m, lines, mapper)[k] == line_call(lines, i, mapper)->Some_0.1
            },
        (forall|i: int| 0 <= i < lines.len() ==> !#[trigger] gives_key(lines, i, mapper, k))
            ==> mapped_after(m, lines, mapper).contains_key(k) == m.contains_key(k)
            && mapped_after(m, lines, mapper)[k] == m[k],
    decreases lines.len(),
{
    if lines.len() > 0 {
        let init = lines.drop_last();
        let n = lines.len() - 1;
        law_mapper_last_call_wins(m, init, mapper, k);
        assert forall|i: int|
            0 <= i < lines.len() && #[trigger] gives_key(lines, i, mapper, k) && (forall|j: int|
                i < j < lines.len() ==> !#[trigger] gives_key(lines, j, mapper, k)) implies {
            &&& mapped_after(m, lines, mapper).contains_key(k)
            &&& mapped_after(m, lines, mapper)[k] == line_call(lines, i, mapper)->Some_0.1
        } by {
            if i < n {
                lemma_line_call_prefix(lines, i, mapper);
                assert(!gives_key(lines, n, mapper, k));
                assert forall|j: int| i < j < init.len() implies !#[trigger] gives_key(
                    init,
                    j,
                    mapper,
                    k,
                ) by {
                    lemma_line_call_prefix(lines, j, mapper);
                    assert(!gives_key(lines, j, mapper, k));
                }
                assert(gives_key(init, i, mapper, k));
            }
        }
        if forall|i: int| 0 <= i < lines.len() ==> !#[trigger] gives_key(lines, i, mapper, k) {
            assert forall|i: int| 0 <= i < init.len() implies !#[trigger] gives_key(
                init,
                i,
                mapper,
                k,
            ) by {
                lemma_line_call_prefix(lines, i, mapper);
                assert(!gives_key(lines, i, mapper, k));
            }
            assert(!gives_key(lines, n, mapper, k));
        }
    }
}

/// The first field of `s` holds no comma, begins `s`, and ends where `s`
/// ends or at the first comma of `s`; the text after the comma is all of
/// `s` past that comma.
pub proof fn law_first_field_is_text_before_comma(s: Seq<char>)
    ensures
        !first_field(s).contains(','),
        first_field(s).len() <= s.len(),
        first_field(s) == s.take(first_field(s).len() as int),
        first_field(s).len() < s.len() ==> s[first_field(s).len() as int] == ',',
        after_comma(s) == (if first_field(s).len() < s.len() {
            Some(s.skip(first_field(s).len() as int + 1))
        } else {
            None::<Seq<char>>
        }),
    decreases s.len(),
{
    if s.len() > 0 && s[0] != ',' {
        let u = s.drop_first();
        law_first_field_is_text_before_comma(u);
        let f = first_field(u);
        assert(first_field(s) == seq![s[0]] + f);
        assert forall|i: int| 0 <= i < first_field(s).len() implies first_field(s)[i] != ',' by {
            if i > 0 {
                assert(first_field(s)[i] == f[i - 1]);
                assert(!f.contains(','));
                if f[i - 1] == ',' {
                    assert(f.contains(','));
                }
            }
        }
        assert(s.take(first_field(s).len() as int) =~= seq![s[0]] + u.take(f.len() as int));
        if f.len() < u.len() {
            assert(u.skip(f.len() as int + 1) =~= s.skip(f.len() as int + 2));
            assert(s[f.len() as int + 1] == u[f.len() as int]);
        }
    } else if s.len() > 0 {
        assert(s.take(0) =~= Seq::<char>::empty());
        assert(first_field(s) =~= Seq::<char>::empty());
    } else {
        assert(s.take(0) =~= s);
    }
}

/// The two fields that a line yields are the text before its first comma
/// and the text between its first and second commas (or its end); a line
/// yields none exactly when it holds no comma.
pub proof fn law_split_pair_fields(s: Seq<char>)
    ensures
        spec_split_pair(s) is None <==> !s.contains(','),
        spec_split_pair(s) matches Some((a, b)) ==> {
            &&& !a.contains(',')
            &&& !b.contains(',')
            &&& s.take(a.len() as int) == a
            &&& s[a.len() as int] == ','
            &&& s.skip(a.len() as int + 1).take(b.len() as int) == b
            &&& (a.len() + 1 + b.len() == s.len() || s[a.len() as int + 1 + b.len()] == ',')
        },
{
    law_first_field_is_text_before_comma(s);
    let a = first_field(s);
    if a.len() < s.len() {
        let rest = s.skip(a.len() as int + 1);
        law_first_field_is_text_before_comma(rest);
        assert(s.contains(',')) by {
            assert(s[a.len() as int] == ',');
        }
        let b = first_field(rest);
        if b.len() < rest.len() {
            assert(rest[b.len() as int] == s[a.len() as int + 1 + b.len()]);
        }
    } else {
        assert(a =~= s);
    }
}

} // verus!
