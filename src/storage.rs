//! The language-preference store: a map from conversation id to language code,
//! and its line-oriented text form `"<id> <code>\n"`.
//!
//! The records are kept as a list with distinct ids, in the order in which ids
//! were first stored, rather than in a `HashMap`. A `HashMap` is walked in an
//! order that its per-process hasher seed decides, so its snapshot text would
//! not be a function of the store; with the list, the text a snapshot writes is
//! stated exactly (`Storage::text`) and its parse is proved to give the map back.

use vstd::prelude::*;
use crate::decimal::{append_i64_text, append_nat_text, i64_text, i64_value, int_text, lemma_int_text_chars, lemma_int_text_parses, parse_i64, nat_text};
use crate::text::{find_char, first_index, lemma_first_index};

verus! {

/// Why a store could not be loaded.
#[derive(Debug, PartialEq, Eq)]
pub enum Error {
    /// The preference file exists but could not be read; the message says why.
    IoError(String),
    /// The non-empty line with this 1-based number is not `"<id> <code>"`.
    MalformedLine { line: usize },
}

impl Error {
    /// Human-readable description of the error.
    pub fn describe(&self) -> (r: String)
        ensures
            r@ == match self {
                Error::IoError(m) => "Io error: "@ + m@,
                Error::MalformedLine { line } => "Malformed preference line "@ + nat_text(
                    *line as u64 as nat,
                ),
            },
    {
        let mut out = String::new();
        match self {
            Error::IoError(m) => {
                out.append("Io error: ");
                out.append(m.as_str());
            },
            Error::MalformedLine { line } => {
                out.append("Malformed preference line ");
                append_nat_text(&mut out, *line as u64);
            },
        }
        out
    }
}

/// The map that inserting `r`'s records into `m` in order gives.
pub open spec fn insert_all(m: Map<i64, Seq<char>>, r: Seq<(i64, Seq<char>)>) -> Map<i64, Seq<char>>
    decreases r.len(),
{
    if r.len() == 0 {
        m
    } else {
        insert_all(m.insert(r[0].0, r[0].1), r.drop_first())
    }
}

pub open spec fn has_key(r: Seq<(i64, Seq<char>)>, k: i64) -> bool {
    exists|i: int| 0 <= i < r.len() && (#[trigger] r[i]).0 == k
}

pub open spec fn distinct_keys(r: Seq<(i64, Seq<char>)>) -> bool {
    forall|i: int, j: int| 0 <= i < r.len() && 0 <= j < r.len() && i != j ==> (#[trigger] r[i]).0 != (
    #[trigger] r[j]).0
}

/// The text of one record.
pub open spec fn line_text(k: i64, v: Seq<char>) -> Seq<char> {
    int_text(k as int) + seq![' '] + v + seq!['\n']
}

/// The text of a sequence of records, one line each, in order.
pub open spec fn records_text(r: Seq<(i64, Seq<char>)>) -> Seq<char>
    decreases r.len(),
{
    if r.len() == 0 {
        Seq::empty()
    } else {
        line_text(r[0].0, r[0].1) + records_text(r.drop_first())
    }
}

/// The record on a non-empty line: the id before the first space, the code after it.
pub open spec fn parse_line(l: Seq<char>) -> Option<(i64, Seq<char>)> {
    let p = first_index(l, ' ') as int;
    if p < l.len() {
        match i64_value(l.subrange(0, p)) {
            Some(k) => Some((k, l.subrange(p + 1, l.len() as int))),
            None => None,
        }
    } else {
        None
    }
}

/// Reads the lines of `t` into `m`, skipping empty ones; `idx` is the 0-based
/// number of the first line of `t`. An error holds the number of the first
/// line that is not a record.
pub open spec fn parse_from(t: Seq<char>, m: Map<i64, Seq<char>>, idx: nat) -> Result<Map<i64, Seq<char>>, nat>
    decreases t.len(),
{
    let p = first_index(t, '\n') as int;
    let line = t.subrange(0, p);
    let here: Result<Map<i64, Seq<char>>, nat> = if line.len() == 0 {
        Ok(m)
    } else {
        match parse_line(line) {
            Some(rec) => Ok(m.insert(rec.0, rec.1)),
            None => Err(idx),
        }
    };
    if p >= t.len() {
        here
    } else {
        match here {
            Ok(m2) => parse_from(t.subrange(p + 1, t.len() as int), m2, idx + 1),
            Err(e) => Err(e),
        }
    }
}

/// The map that the text of a store denotes, or the 0-based number of its first
/// malformed line.
pub open spec fn parse_text(t: Seq<char>) -> Result<Map<i64, Seq<char>>, nat> {
    parse_from(t, Map::empty(), 0)
}

pub open spec fn no_newline(v: Seq<char>) -> bool {
    forall|j: int| 0 <= j < v.len() ==> v[j] != '\n'
}

proof fn lemma_insert_all_absent(m: Map<i64, Seq<char>>, r: Seq<(i64, Seq<char>)>, k: i64)
    requires
        !has_key(r, k),
    ensures
        insert_all(m, r).contains_key(k) == m.contains_key(k),
        m.contains_key(k) ==> insert_all(m, r)[k] == m[k],
    decreases r.len(),
{
    if r.len() > 0 {
        assert(r[0].0 != k);
        assert(!has_key(r.drop_first(), k)) by {
            if has_key(r.drop_first(), k) {
                let i = choose|i: int| 0 <= i < r.drop_first().len() && (#[trigger] r.drop_first()[i]).0 == k;
                assert(r[i + 1].0 == k);
            }
        }
        lemma_insert_all_absent(m.insert(r[0].0, r[0].1), r.drop_first(), k);
    }
}

proof fn lemma_insert_all_at(m: Map<i64, Seq<char>>, r: Seq<(i64, Seq<char>)>, i: int)
    requires
        distinct_keys(r),
        0 <= i < r.len(),
    ensures
        insert_all(m, r).contains_key(r[i].0),
        insert_all(m, r)[r[i].0] == r[i].1,
    decreases r.len(),
{
    let rest = r.drop_first();
    assert(distinct_keys(rest)) by {
        assert forall|a: int, b: int| 0 <= a < rest.len() && 0 <= b < rest.len() && a != b implies (
        #[trigger] rest[a]).0 != (#[trigger] rest[b]).0 by {
            assert(rest[a] == r[a + 1] && rest[b] == r[b + 1]);
        }
    }
    if i == 0 {
        assert(!has_key(rest, r[0].0)) by {
            if has_key(rest, r[0].0) {
                let j = choose|j: int| 0 <= j < rest.len() && (#[trigger] rest[j]).0 == r[0].0;
                assert(r[j + 1].0 == r[0].0);
            }
        }
        lemma_insert_all_absent(m.insert(r[0].0, r[0].1), rest, r[0].0);
    } else {
        assert(rest[i - 1] == r[i]);
        lemma_insert_all_at(m.insert(r[0].0, r[0].1), rest, i - 1);
    }
}

proof fn lemma_insert_all_push(m: Map<i64, Seq<char>>, r: Seq<(i64, Seq<char>)>, x: (i64, Seq<char>))
    ensures
        insert_all(m, r.push(x)) == insert_all(m, r).insert(x.0, x.1),
    decreases r.len(),
{
    if r.len() == 0 {
        assert(r.push(x).drop_first() =~= Seq::<(i64, Seq<char>)>::empty());
        assert(insert_all(m.insert(x.0, x.1), Seq::<(i64, Seq<char>)>::empty()) == m.insert(x.0, x.1));
    } else {
        assert(r.push(x).drop_first() =~= r.drop_first().push(x));
        lemma_insert_all_push(m.insert(r[0].0, r[0].1), r.drop_first(), x);
    }
}

proof fn lemma_insert_all_update(r: Seq<(i64, Seq<char>)>, i: int, v: Seq<char>)
    requires
        distinct_keys(r),
        0 <= i < r.len(),
    ensures
        distinct_keys(r.update(i, (r[i].0, v))),
        insert_all(Map::empty(), r.update(i, (r[i].0, v))) == insert_all(Map::empty(), r).insert(
            r[i].0,
            v,
        ),
{
    let k = r[i].0;
    let r2 = r.update(i, (k, v));
    assert forall|a: int, b: int| 0 <= a < r2.len() && 0 <= b < r2.len() && a != b implies (
    #[trigger] r2[a]).0 != (#[trigger] r2[b]).0 by {
        assert(r2[a].0 == r[a].0 && r2[b].0 == r[b].0);
    }
    let x = insert_all(Map::empty(), r2);
    let y = insert_all(Map::empty(), r).insert(k, v);
    assert forall|q: i64| #[trigger] x.contains_key(q) == y.contains_key(q) && (x.contains_key(q)
        ==> x[q] == y[q]) by {
        if q == k {
            lemma_insert_all_at(Map::empty(), r2, i);
        } else if has_key(r, q) {
            let j = choose|j: int| 0 <= j < r.len() && (#[trigger] r[j]).0 == q;
            assert(r2[j] == r[j]);
            lemma_insert_all_at(Map::empty(), r, j);
            lemma_insert_all_at(Map::empty(), r2, j);
        } else {
            assert(!has_key(r2, q)) by {
                if has_key(r2, q) {
                    let j = choose|j: int| 0 <= j < r2.len() && (#[trigger] r2[j]).0 == q;
                    assert(r[j].0 == q);
                }
            }
            lemma_insert_all_absent(Map::empty(), r, q);
            lemma_insert_all_absent(Map::empty(), r2, q);
        }
    }
    assert(x =~= y);
}

proof fn lemma_records_text_push(r: Seq<(i64, Seq<char>)>, x: (i64, Seq<char>))
    ensures
        records_text(r.push(x)) == records_text(r) + line_text(x.0, x.1),
    decreases r.len(),
{
    if r.len() == 0 {
        assert(r.push(x).drop_first() =~= Seq::<(i64, Seq<char>)>::empty());
        assert(records_text(Seq::<(i64, Seq<char>)>::empty()) == Seq::<char>::empty());
        assert(records_text(r.push(x)) =~= line_text(x.0, x.1));
    } else {
        assert(r.push(x).drop_first() =~= r.drop_first().push(x));
        lemma_records_text_push(r.drop_first(), x);
        assert(records_text(r.push(x)) =~= records_text(r) + line_text(x.0, x.1));
    }
}

/// Parsing the text of records whose codes hold no line break inserts those
/// records, in order.
pub proof fn lemma_records_text_parses(r: Seq<(i64, Seq<char>)>, m: Map<i64, Seq<char>>, idx: nat)
    requires
        forall|i: int| 0 <= i < r.len() ==> no_newline(#[trigger] r[i].1),
    ensures
        parse_from(records_text(r), m, idx) == Ok::<Map<i64, Seq<char>>, nat>(insert_all(m, r)),
    decreases r.len(),
{
    if r.len() == 0 {
        let t = records_text(r);
        assert(t =~= Seq::<char>::empty());
        assert(t.subrange(0, 0) =~= Seq::<char>::empty());
    } else {
        let k = r[0].0;
        let v = r[0].1;
        let kt = int_text(k as int);
        let rest = records_text(r.drop_first());
        let t = records_text(r);
        assert(no_newline(v));
        lemma_int_text_chars(k as int);
        let j: int = kt.len() as int + 1 + v.len() as int;
        assert(t == line_text(k, v) + rest);
        assert forall|x: int| 0 <= x < j implies t[x] != '\n' by {
            if x < kt.len() {
                assert(t[x] == kt[x]);
            } else if x == kt.len() {
                assert(t[x] == ' ');
            } else {
                assert(t[x] == v[x - kt.len() - 1]);
            }
        }
        assert(t[j] == '\n');
        lemma_first_index(t, '\n', j);
        let line = t.subrange(0, j);
        assert(line =~= kt + seq![' '] + v);
        assert forall|x: int| 0 <= x < kt.len() implies line[x] != ' ' by {
            assert(line[x] == kt[x]);
        }
        lemma_first_index(line, ' ', kt.len() as int);
        assert(line.subrange(0, kt.len() as int) =~= kt);
        assert(line.subrange(kt.len() as int + 1, line.len() as int) =~= v);
        lemma_int_text_parses(k);
        assert(parse_line(line) == Some((k, v)));
        assert(t.subrange(j + 1, t.len() as int) =~= rest);
        assert forall|i: int| 0 <= i < r.drop_first().len() implies no_newline(
            #[trigger] r.drop_first()[i].1,
        ) by {
            assert(r.drop_first()[i] == r[i + 1]);
        }
        lemma_records_text_parses(r.drop_first(), m.insert(k, v), idx + 1);
    }
}

/// Preferences of conversations: at most one language code per conversation.
pub struct Storage {
    entries: Vec<(i64, String)>,
}

impl View for Storage {
    type V = Map<i64, Seq<char>>;

    open spec fn view(&self) -> Map<i64, Seq<char>> {
        insert_all(Map::empty(), self.records())
    }
}

impl Storage {
    /// The stored records, in the order in which they are written out.
    pub closed spec fn records(&self) -> Seq<(i64, Seq<char>)> {
        self.entries@.map_values(|e: (i64, String)| (e.0, e.1@))
    }

    pub open spec fn wf(&self) -> bool {
        distinct_keys(self.records())
    }

    /// The text form of the store.
    pub open spec fn text(&self) -> Seq<char> {
        records_text(self.records())
    }

    /// A store with no preferences.
    pub fn empty() -> (r: Storage)
        ensures
            r.wf(),
            r@ == Map::<i64, Seq<char>>::empty(),
    {
        let r = Storage { entries: Vec::new() };
        assert(r.records() =~= Seq::<(i64, Seq<char>)>::empty());
        r
    }

    /// The store that a preference file holds: `None` when there is no file,
    /// which gives an empty store, else the file's text.
    pub fn new(existing: Option<&str>) -> (r: Result<Storage, Error>)
        ensures
            existing is None ==> r is Ok && r->Ok_0.wf() && r->Ok_0@ == Map::<i64, Seq<char>>::empty(),
            existing is Some ==> match parse_text(existing->Some_0@) {
                Ok(m) => r is Ok && r->Ok_0.wf() && r->Ok_0@ == m,
                Err(i) => match r {
                    Err(Error::MalformedLine { line }) => line == i + 1,
                    _ => false,
                },
            },
    {
        match existing {
            None => Ok(Storage::empty()),
            Some(text) => Storage::db_from_string(text),
        }
    }

    fn position(&self, chat_id: i64) -> (r: Option<usize>)
        requires
            self.wf(),
        ensures
            match r {
                Some(i) => i < self.records().len() && self.records()[i as int].0 == chat_id,
                None => !has_key(self.records(), chat_id),
            },
    {
        let mut i: usize = 0;
        while i < self.entries.len()
            invariant
                i <= self.entries.len(),
                forall|j: int| 0 <= j < i ==> (#[trigger] self.records()[j]).0 != chat_id,
            decreases self.entries.len() - i,
        {
            assert(self.records()[i as int].0 == self.entries[i as int].0);
            if self.entries[i].0 == chat_id {
                return Some(i);
            }
            i = i + 1;
        }
        None
    }

    /// The language code stored for `chat_id`, if any.
    pub fn get(&self, chat_id: i64) -> (r: Option<String>)
        requires
            self.wf(),
        ensures
            match r {
                Some(v) => self@.contains_key(chat_id) && v@ == self@[chat_id],
                None => !self@.contains_key(chat_id),
            },
    {
        match self.position(chat_id) {
            Some(i) => {
                proof {
                    lemma_insert_all_at(Map::empty(), self.records(), i as int);
                }
                Some(self.entries[i].1.clone())
            },
            None => {
                proof {
                    lemma_insert_all_absent(Map::empty(), self.records(), chat_id);
                }
                None
            },
        }
    }

    /// Stores `lang_preference` for `chat_id`, replacing an earlier one.
    pub fn put(&mut self, chat_id: i64, lang_preference: String)
        requires
            old(self).wf(),
        ensures
            final(self).wf(),
            final(self)@ == old(self)@.insert(chat_id, lang_preference@),
    {
        let ghost r = self.records();
        let ghost v = lang_preference@;
        match self.position(chat_id) {
            Some(i) => {
                self.entries[i] = (chat_id, lang_preference);
                proof {
                    assert(self.records() =~= r.update(i as int, (chat_id, v)));
                    lemma_insert_all_update(r, i as int, v);
                }
            },
            None => {
                self.entries.push((chat_id, lang_preference));
                proof {
                    assert(self.records() =~= r.push((chat_id, v)));
                    lemma_insert_all_push(Map::empty(), r, (chat_id, v));
                    assert forall|a: int, b: int|
                        0 <= a < self.records().len() && 0 <= b < self.records().len() && a != b
                        implies (#[trigger] self.records()[a]).0 != (#[trigger] self.records()[b]).0 by {
                        if a == r.len() {
                            assert(r[b] == self.records()[b]);
                        } else if b == r.len() {
                            assert(r[a] == self.records()[a]);
                        }
                    }
                }
            },
        }
    }

    /// The text form of the whole store, one `"<id> <code>\n"` line per record.
    pub fn db_to_string(&self) -> (r: String)
        ensures
            r@ == self.text(),
    {
        let mut out = String::new();
        let mut i: usize = 0;
        while i < self.entries.len()
            invariant
                i <= self.entries.len(),
                out@ == records_text(self.records().subrange(0, i as int)),
            decreases self.entries.len() - i,
        {
            let ghost before = out@;
            let entry = &self.entries[i];
            append_i64_text(&mut out, entry.0);
            out.append(" ");
            out.append(entry.1.as_str());
            out.append("\n");
            proof {
                reveal_strlit(" ");
                reveal_strlit("\n");
                let r = self.records();
                assert(r.subrange(0, i + 1) =~= r.subrange(0, i as int).push(r[i as int]));
                lemma_records_text_push(r.subrange(0, i as int), r[i as int]);
                assert(out@ =~= before + line_text(r[i as int].0, r[i as int].1));
            }
            i = i + 1;
        }
        assert(self.records().subrange(0, self.entries.len() as int) =~= self.records());
        out
    }

    /// Reads the text form of a store. Empty lines are skipped; on a repeated
    /// id the later line wins.
    pub fn db_from_string(db: &str) -> (r: Result<Storage, Error>)
        ensures
            match parse_text(db@) {
                Ok(m) => r is Ok && r->Ok_0.wf() && r->Ok_0@ == m,
                Err(i) => match r {
                    Err(Error::MalformedLine { line }) => line == i + 1,
                    _ => false,
                },
            },
    {
        let n = db.unicode_len();
        let mut store = Storage::empty();
        let mut pos: usize = 0;
        let mut idx: usize = 0;
        let mut done = false;
        let ghost t = db@;
        assert(t.subrange(0, n as int) =~= t);
        while !done
            invariant
                n == t.len(),
                t == db@,
                store.wf(),
                idx <= pos <= n,
                !done ==> parse_text(t) == parse_from(t.subrange(pos as int, n as int), store@, idx as nat),
                done ==> parse_text(t) == Ok::<Map<i64, Seq<char>>, nat>(store@),
            decreases (if done { 0int } else { n - pos + 1 }),
        {
            let p = find_char(db, pos, '\n');
            let ghost sub = t.subrange(pos as int, n as int);
            let ghost m0 = store@;
            let line = db.substring_char(pos, p);
            assert(line@ =~= sub.subrange(0, first_index(sub, '\n') as int));
            if p > pos {
                match parse_record(line) {
                    Some(rec) => {
                        store.put(rec.0, rec.1);
                    },
                    None => {
                        return Err(Error::MalformedLine { line: idx + 1 });
                    },
                }
            }
            if p >= n {
                done = true;
            } else {
                assert(sub.subrange(p - pos + 1, sub.len() as int) =~= t.subrange(p + 1, n as int));
                pos = p + 1;
                idx = idx + 1;
            }
        }
        Ok(store)
    }
}

/// Some record of `ops` writes `v` for `k`.
pub open spec fn written(ops: Seq<(i64, Seq<char>)>, k: i64, v: Seq<char>) -> bool {
    exists|j: int| 0 <= j < ops.len() && (#[trigger] ops[j]).0 == k && ops[j].1 == v
}

/// After a `put` of `code` for `chat_id`, `get` on that id returns `code`, and
/// every other id keeps what it had.
pub proof fn lemma_put_then_get(before: &Storage, after: &Storage, chat_id: i64, code: Seq<char>, other: i64)
    requires
        after@ == before@.insert(chat_id, code),
    ensures
        after@.contains_key(chat_id),
        after@[chat_id] == code,
        other != chat_id ==> after@.contains_key(other) == before@.contains_key(other),
        other != chat_id && before@.contains_key(other) ==> after@[other] == before@[other],
{
}

/// Writing a store out as text and reading the text back gives the same map,
/// when no code holds a line break.
pub proof fn lemma_round_trip(s: &Storage)
    requires
        s.wf(),
        forall|k: i64| s@.contains_key(k) ==> no_newline(#[trigger] s@[k]),
    ensures
        parse_text(s.text()) == Ok::<Map<i64, Seq<char>>, nat>(s@),
{
    let r = s.records();
    assert forall|i: int| 0 <= i < r.len() implies no_newline(#[trigger] r[i].1) by {
        lemma_insert_all_at(Map::empty(), r, i);
        assert(no_newline(s@[r[i].0]));
    }
    lemma_records_text_parses(r, Map::empty(), 0);
}

/// Puts applied one after another, in any order, leave every written id
/// present, holding one of the codes written for it; when the ids are distinct,
/// each holds its own code; every id that no put names keeps what it had; and
/// puts that all name one id leave the store as if one of them alone was made.
pub proof fn lemma_serialized_puts(m: Map<i64, Seq<char>>, ops: Seq<(i64, Seq<char>)>)
    ensures
        forall|i: int| #![trigger ops[i]] 0 <= i < ops.len() ==> insert_all(m, ops).contains_key(ops[i].0),
        forall|i: int| #![trigger ops[i]] 0 <= i < ops.len() ==> written(ops, ops[i].0, insert_all(m, ops)[ops[i].0]),
        distinct_keys(ops) ==> forall|i: int| #![trigger ops[i]] 0 <= i < ops.len() ==> insert_all(m, ops)[ops[i].0]
            == ops[i].1,
        forall|k: i64| #![trigger has_key(ops, k)] !has_key(ops, k) ==> insert_all(m, ops).contains_key(k)
            == m.contains_key(k) && (m.contains_key(k) ==> insert_all(m, ops)[k] == m[k]),
        ops.len() > 0 && (forall|i: int| #![trigger ops[i]] 0 <= i < ops.len() ==> ops[i].0 == ops[0].0) ==> exists|j: int|
            0 <= j < ops.len() && insert_all(m, ops) == #[trigger] m.insert(ops[0].0, ops[j].1),
{
    assert forall|i: int| #![trigger ops[i]] 0 <= i < ops.len() implies insert_all(m, ops).contains_key(ops[i].0)
        && written(ops, ops[i].0, insert_all(m, ops)[ops[i].0]) by {
        lemma_insert_all_written(m, ops, ops[i].0, i);
    }
    if distinct_keys(ops) {
        assert forall|i: int| #![trigger ops[i]] 0 <= i < ops.len() implies insert_all(m, ops)[ops[i].0] == ops[i].1 by {
            lemma_insert_all_at(m, ops, i);
        }
    }
    assert forall|k: i64| #![trigger has_key(ops, k)] !has_key(ops, k) implies insert_all(m, ops).contains_key(k)
        == m.contains_key(k) && (m.contains_key(k) ==> insert_all(m, ops)[k] == m[k]) by {
        lemma_insert_all_absent(m, ops, k);
    }
    if ops.len() > 0 && (forall|i: int| #![trigger ops[i]] 0 <= i < ops.len() ==> ops[i].0 == ops[0].0) {
        let k = ops[0].0;
        let after = insert_all(m, ops);
        lemma_insert_all_written(m, ops, k, 0);
        let j = choose|j: int| 0 <= j < ops.len() && (#[trigger] ops[j]).0 == k && ops[j].1 == after[k];
        assert forall|q: i64| #[trigger] after.contains_key(q) == m.insert(k, ops[j].1).contains_key(q)
            && (after.contains_key(q) ==> after[q] == m.insert(k, ops[j].1)[q]) by {
            if q != k {
                assert(!has_key(ops, q)) by {
                    if has_key(ops, q) {
                        let i = choose|i: int| 0 <= i < ops.len() && (#[trigger] ops[i]).0 == q;
                        assert(ops[i].0 == k);
                    }
                }
                lemma_insert_all_absent(m, ops, q);
            }
        }
        assert(after =~= m.insert(k, ops[j].1));
    }
}

proof fn lemma_insert_all_written(m: Map<i64, Seq<char>>, ops: Seq<(i64, Seq<char>)>, k: i64, i: int)
    requires
        0 <= i < ops.len(),
        ops[i].0 == k,
    ensures
        insert_all(m, ops).contains_key(k),
        written(ops, k, insert_all(m, ops)[k]),
    decreases ops.len(),
{
    let rest = ops.drop_first();
    let m1 = m.insert(ops[0].0, ops[0].1);
    if has_key(rest, k) {
        let i2 = choose|i2: int| 0 <= i2 < rest.len() && (#[trigger] rest[i2]).0 == k;
        lemma_insert_all_written(m1, rest, k, i2);
        let j = choose|j: int| 0 <= j < rest.len() && (#[trigger] rest[j]).0 == k && insert_all(m1, rest)[k] == rest[j].1;
        assert(ops[j + 1] == rest[j]);
    } else {
        if i > 0 {
            assert(rest[i - 1] == ops[i]);
        }
        lemma_insert_all_absent(m1, rest, k);
        assert(ops[0].0 == k);
        assert(ops[0].1 == insert_all(m, ops)[k]);
    }
}

fn parse_record(line: &str) -> (r: Option<(i64, String)>)
    ensures
        match r {
            Some(rec) => parse_line(line@) == Some((rec.0, rec.1@)),
            None => parse_line(line@) is None,
        },
{
    let n = line.unicode_len();
    let p = find_char(line, 0, ' ');
    assert(line@.subrange(0, n as int) =~= line@);
    if p >= n {
        return None;
    }
    let id_text = line.substring_char(0, p);
    match parse_i64(id_text) {
        Some(k) => {
            let code = line.substring_char(p + 1, n);
            Some((k, code.to_owned()))
        },
        None => None,
    }
}

} // verus!
