//! Sidebar widget data: values from GMCP messages, stored under their paths.

use vstd::prelude::*;

use crate::json::{json_parse, parse_json, Json};
use crate::text::{chars_of, concat_vec, split_once, split_once_vec, string_of, trim, trim_vec, u64_text};

verus! {

/// The leaves of a JSON value under `prefix`, in order: objects extend the
/// path with `.key`, arrays with `.index`; strings give their text, numbers
/// their text, booleans `true` / `false`; nulls give nothing.
pub open spec fn json_leaves(j: Json, prefix: Seq<char>) -> Seq<(Seq<char>, Seq<char>)>
    decreases j, 1int,
{
    match j {
        Json::Object(ms) => members_leaves(j, prefix, ms@.len()),
        Json::Array(items) => items_leaves(j, prefix, items@.len()),
        Json::Str(s) => seq![(prefix, s@)],
        Json::Number(n) => seq![(prefix, n@)],
        Json::Bool(b) => seq![(prefix, if b { "true"@ } else { "false"@ })],
        Json::Null => seq![],
    }
}

/// The leaves of the first `n` members of object `j`.
pub open spec fn members_leaves(j: Json, prefix: Seq<char>, n: nat) -> Seq<(Seq<char>, Seq<char>)>
    decreases j, 0int, n,
{
    match j {
        Json::Object(ms) => if n == 0 || n > ms@.len() {
            seq![]
        } else {
            proof {
                assert(decreases_to!(j => ms));
                assert(decreases_to!(ms => ms@));
                assert(decreases_to!(ms@ => ms@[n - 1]));
                assert(decreases_to!(ms@[n - 1] => ms@[n - 1].1));
            }
            members_leaves(j, prefix, (n - 1) as nat) + json_leaves(ms@[n - 1].1, prefix + "."@ + ms@[n - 1].0@)
        },
        _ => seq![],
    }
}

/// The leaves of the first `n` items of array `j`.
pub open spec fn items_leaves(j: Json, prefix: Seq<char>, n: nat) -> Seq<(Seq<char>, Seq<char>)>
    decreases j, 0int, n,
{
    match j {
        Json::Array(items) => if n == 0 || n > items@.len() {
            seq![]
        } else {
            proof {
                assert(decreases_to!(j => items));
                assert(decreases_to!(items => items@));
                assert(decreases_to!(items@ => items@[n - 1]));
            }
            items_leaves(j, prefix, (n - 1) as nat) + json_leaves(items@[n - 1], prefix + "."@ + crate::text::dec_digits((n - 1) as nat))
        },
        _ => seq![],
    }
}

/// `m` with each pair of `leaves` inserted in turn, so a later pair wins.
pub open spec fn insert_all(m: Map<Seq<char>, Seq<char>>, leaves: Seq<(Seq<char>, Seq<char>)>) -> Map<Seq<char>, Seq<char>>
    decreases leaves.len(),
{
    if leaves.len() == 0 {
        m
    } else {
        insert_all(m, leaves.drop_last()).insert(leaves.last().0, leaves.last().1)
    }
}

proof fn lemma_insert_all_concat(m: Map<Seq<char>, Seq<char>>, a: Seq<(Seq<char>, Seq<char>)>, b: Seq<(Seq<char>, Seq<char>)>)
    ensures
        insert_all(m, a + b) == insert_all(insert_all(m, a), b),
    decreases b.len(),
{
    if b.len() == 0 {
        assert(a + b =~= a);
    } else {
        assert((a + b).drop_last() =~= a + b.drop_last());
        lemma_insert_all_concat(m, a, b.drop_last());
    }
}

proof fn lemma_insert_one(m: Map<Seq<char>, Seq<char>>, leaves: Seq<(Seq<char>, Seq<char>)>)
    requires
        leaves.len() == 1,
    ensures
        insert_all(m, leaves) == m.insert(leaves[0].0, leaves[0].1),
{
    assert(leaves.drop_last() =~= Seq::<(Seq<char>, Seq<char>)>::empty());
    assert(insert_all(m, leaves.drop_last()) == m);
}

/// The map that the stored pairs stand for.
pub open spec fn pairs_map(d: Seq<(String, String)>) -> Map<Seq<char>, Seq<char>>
    decreases d.len(),
{
    if d.len() == 0 {
        Map::empty()
    } else {
        pairs_map(d.drop_last()).insert(d.last().0@, d.last().1@)
    }
}

/// No path is stored twice.
pub open spec fn keys_unique(d: Seq<(String, String)>) -> bool {
    forall|i: int, j: int| 0 <= i < j < d.len() ==> (#[trigger] d[i]).0@ != (#[trigger] d[j]).0@
}

proof fn lemma_pairs_map_at(d: Seq<(String, String)>, i: int)
    requires
        keys_unique(d),
        0 <= i < d.len(),
    ensures
        pairs_map(d).contains_key(d[i].0@),
        pairs_map(d)[d[i].0@] == d[i].1@,
    decreases d.len(),
{
    if i < d.len() - 1 {
        assert(d.drop_last()[i] == d[i]);
        assert(d[i].0@ != d[d.len() - 1].0@);
        lemma_pairs_map_at(d.drop_last(), i);
    }
}

proof fn lemma_pairs_map_absent(d: Seq<(String, String)>, k: Seq<char>)
    requires
        forall|i: int| 0 <= i < d.len() ==> (#[trigger] d[i]).0@ != k,
    ensures
        !pairs_map(d).contains_key(k),
    decreases d.len(),
{
    if d.len() > 0 {
        assert forall|i: int| 0 <= i < d.len() - 1 implies (#[trigger] d.drop_last()[i]).0@ != k by {
            assert(d.drop_last()[i] == d[i]);
        }
        lemma_pairs_map_absent(d.drop_last(), k);
    }
}

proof fn lemma_pairs_map_update(d: Seq<(String, String)>, i: int, x: (String, String))
    requires
        keys_unique(d),
        0 <= i < d.len(),
        d[i].0@ == x.0@,
    ensures
        pairs_map(d.update(i, x)) == pairs_map(d).insert(x.0@, x.1@),
    decreases d.len(),
{
    let n = d.len();
    if i == n - 1 {
        assert(d.update(i, x).drop_last() =~= d.drop_last());
        assert(pairs_map(d.update(i, x)) =~= pairs_map(d).insert(x.0@, x.1@));
    } else {
        assert(d.update(i, x).drop_last() =~= d.drop_last().update(i, x));
        assert(d[i].0@ != d[n - 1].0@);
        lemma_pairs_map_update(d.drop_last(), i, x);
        assert(pairs_map(d.update(i, x)) =~= pairs_map(d).insert(x.0@, x.1@));
    }
}

/// Values read from GMCP messages, each under its dotted path such as
/// `Char.Vitals.hp`.
pub struct WidgetDataStore {
    data: Vec<(String, String)>,
}

impl View for WidgetDataStore {
    type V = Map<Seq<char>, Seq<char>>;

    closed spec fn view(&self) -> Map<Seq<char>, Seq<char>> {
        pairs_map(self.data@)
    }
}

impl WidgetDataStore {
    /// Each path is stored once.
    pub closed spec fn wf(&self) -> bool {
        keys_unique(self.data@)
    }

    /// An empty store.
    pub fn new() -> (s: Self)
        ensures
            s.wf(),
            s@ == Map::<Seq<char>, Seq<char>>::empty(),
    {
        WidgetDataStore { data: Vec::new() }
    }

    fn position(&self, path: &str) -> (r: Option<usize>)
        requires
            self.wf(),
        ensures
            match r {
                Some(i) => i < self.data@.len() && self.data@[i as int].0@ == path@,
                None => forall|i: int| 0 <= i < self.data@.len() ==> (#[trigger] self.data@[i]).0@ != path@,
            },
    {
        let mut i: usize = 0;
        while i < self.data.len()
            invariant
                i <= self.data@.len(),
                forall|k: int| 0 <= k < i ==> (#[trigger] self.data@[k]).0@ != path@,
            decreases self.data.len() - i,
        {
            if crate::text::str_eq(self.data[i].0.as_str(), path) {
                return Some(i);
            }
            i += 1;
        }
        None
    }

    fn store(&mut self, path: String, value: String)
        requires
            old(self).wf(),
        ensures
            final(self).wf(),
            final(self)@ == old(self)@.insert(path@, value@),
    {
        let ghost k = path@;
        let ghost v = value@;
        match self.position(path.as_str()) {
            Some(i) => {
                proof {
                    lemma_pairs_map_update(self.data@, i as int, (path, value));
                }
                let ghost before = self.data@;
                self.data.set(i, (path, value));
                assert forall|a: int, b: int| 0 <= a < b < self.data@.len() implies (#[trigger] self.data@[a]).0@ != (#[trigger] self.data@[b]).0@ by {
                    assert(before[a].0@ != before[b].0@);
                }
            },
            None => {
                let ghost before = self.data@;
                self.data.push((path, value));
                assert(self.data@.drop_last() =~= before);
                assert forall|a: int, b: int| 0 <= a < b < self.data@.len() implies (#[trigger] self.data@[a]).0@ != (#[trigger] self.data@[b]).0@ by {
                    if b < before.len() {
                        assert(before[a].0@ != before[b].0@);
                    }
                }
                assert(self@ == pairs_map(before).insert(k, v));
            },
        }
    }

    /// Stores `value` under `path`, replacing what was there.
    pub fn set(&mut self, path: &str, value: &str)
        requires
            old(self).wf(),
        ensures
            final(self).wf(),
            final(self)@ == old(self)@.insert(path@, value@),
    {
        let p = string_of(&chars_of(path));
        let v = string_of(&chars_of(value));
        self.store(p, v);
    }

    /// The value stored under `path`, if any.
    pub fn get(&self, path: &str) -> (r: Option<&str>)
        requires
            self.wf(),
        ensures
            match r {
                Some(v) => self@.contains_key(path@) && self@[path@] == v@,
                None => !self@.contains_key(path@),
            },
    {
        match self.position(path) {
            Some(i) => {
                proof {
                    lemma_pairs_map_at(self.data@, i as int);
                }
                Some(self.data[i].1.as_str())
            },
            None => {
                proof {
                    lemma_pairs_map_absent(self.data@, path@);
                }
                None
            },
        }
    }

    /// Stores the leaves of `j` under `prefix`, in document order.
    fn extract(&mut self, j: &Json, prefix: &Vec<char>)
        requires
            old(self).wf(),
        ensures
            final(self).wf(),
            final(self)@ == insert_all(old(self)@, json_leaves(*j, prefix@)),
        decreases j,
    {
        match j {
            Json::Object(ms) => {
                let ghost start = self@;
                let mut i: usize = 0;
                while i < ms.len()
                    invariant
                        i <= ms@.len(),
                        *j == Json::Object(*ms),
                        self.wf(),
                        self@ == insert_all(start, members_leaves(*j, prefix@, i as nat)),
                    decreases ms.len() - i,
                {
                    let mut dot: Vec<char> = Vec::new();
                    dot.push('.');
                    let key = chars_of(ms[i].0.as_str());
                    let tail = concat_vec(&dot, &key);
                    let path = concat_vec(prefix, &tail);
                    proof {
                        assert(decreases_to!(*j => *ms));
                        assert(decreases_to!(*ms => ms@));
                        assert(decreases_to!(ms@ => ms@[i as int]));
                        assert(decreases_to!(ms@[i as int] => ms@[i as int].1));
                    }
                    self.extract(&ms[i].1, &path);
                    proof {
                        assert(path@ == prefix@ + "."@ + ms@[i as int].0@) by {
                            reveal_strlit(".");
                            assert(path@ =~= prefix@ + "."@ + ms@[i as int].0@);
                        }
                        lemma_insert_all_concat(start, members_leaves(*j, prefix@, i as nat), json_leaves(ms@[i as int].1, path@));
                    }
                    i += 1;
                }
                assert(json_leaves(*j, prefix@) == members_leaves(*j, prefix@, ms@.len()));
            },
            Json::Array(items) => {
                let ghost start = self@;
                let mut i: usize = 0;
                while i < items.len()
                    invariant
                        i <= items@.len(),
                        *j == Json::Array(*items),
                        self.wf(),
                        self@ == insert_all(start, items_leaves(*j, prefix@, i as nat)),
                    decreases items.len() - i,
                {
                    let mut dot: Vec<char> = Vec::new();
                    dot.push('.');
                    let digits = u64_text(i as u64);
                    let tail = concat_vec(&dot, &digits);
                    let path = concat_vec(prefix, &tail);
                    proof {
                        assert(decreases_to!(*j => *items));
                        assert(decreases_to!(*items => items@));
                        assert(decreases_to!(items@ => items@[i as int]));
                    }
                    self.extract(&items[i], &path);
                    proof {
                        assert(path@ == prefix@ + "."@ + crate::text::dec_digits(i as nat)) by {
                            reveal_strlit(".");
                            assert(path@ =~= prefix@ + "."@ + crate::text::dec_digits(i as nat));
                        }
                        lemma_insert_all_concat(start, items_leaves(*j, prefix@, i as nat), json_leaves(items@[i as int], path@));
                    }
                    i += 1;
                }
                assert(json_leaves(*j, prefix@) == items_leaves(*j, prefix@, items@.len()));
            },
            Json::Str(s) => {
                let ghost start = self@;
                let k = string_of(prefix);
                let v = string_of(&chars_of(s.as_str()));
                self.store(k, v);
                proof {
                    lemma_insert_one(start, json_leaves(*j, prefix@));
                }
            },
            Json::Number(n) => {
                let ghost start = self@;
                let k = string_of(prefix);
                let v = string_of(&chars_of(n.as_str()));
                self.store(k, v);
                proof {
                    lemma_insert_one(start, json_leaves(*j, prefix@));
                }
            },
            Json::Bool(b) => {
                let ghost start = self@;
                let k = string_of(prefix);
                let v = if *b { string_of(&chars_of("true")) } else { string_of(&chars_of("false")) };
                self.store(k, v);
                proof {
                    lemma_insert_one(start, json_leaves(*j, prefix@));
                }
            },
            Json::Null => {
                assert(insert_all(self@, json_leaves(*j, prefix@)) == self@);
            },
        }
    }

    /// Reads a GMCP message `Package.Name <json>` and stores each leaf of
    /// the JSON payload under `Package.Name.<path>`; a message without a
    /// space, or whose payload is not JSON, changes nothing.
    pub fn apply_gmcp(&mut self, msg: &str)
        requires
            old(self).wf(),
        ensures
            final(self).wf(),
            final(self)@ == match split_once(msg@, ' ') {
                None => old(self)@,
                Some((package, payload)) => match json_parse(trim(payload)) {
                    None => old(self)@,
                    Some(j) => insert_all(old(self)@, json_leaves(j, package)),
                },
            },
    {
        let chars = chars_of(msg);
        match split_once_vec(&chars, ' ') {
            None => {},
            Some((package, payload)) => {
                let text = string_of(&trim_vec(&payload));
                match parse_json(text.as_str()) {
                    None => {},
                    Some(j) => {
                        self.extract(&j, &package);
                    },
                }
            },
        }
    }
}

/// A stored value is read back under its path, and storing leaves the
/// other paths as they were.
pub proof fn law_set_then_get(m: Map<Seq<char>, Seq<char>>, path: Seq<char>, value: Seq<char>, other: Seq<char>)
    ensures
        m.insert(path, value).contains_key(path),
        m.insert(path, value)[path] == value,
        other != path ==> m.insert(path, value).contains_key(other) == m.contains_key(other),
        other != path && m.contains_key(other) ==> m.insert(path, value)[other] == m[other],
{
}

/// The part of `s` after its last `.` (all of `s` without one).
pub open spec fn last_segment(s: Seq<char>) -> Seq<char>
    decreases s.len(),
{
    if s.len() == 0 || s.last() == '.' {
        seq![]
    } else {
        last_segment(s.drop_last()).push(s.last())
    }
}

/// The rows of a key/value list widget: for each configured path with a
/// value, its last segment padded to six columns and the value after a
/// space; paths without a value are left out.
pub open spec fn spec_kv_rows(keys: Seq<Seq<char>>, m: Map<Seq<char>, Seq<char>>) -> Seq<(Seq<char>, Seq<char>)>
    decreases keys.len(),
{
    if keys.len() == 0 {
        seq![]
    } else {
        let r = spec_kv_rows(keys.drop_last(), m);
        let k = keys.last();
        if m.contains_key(k) {
            r.push((crate::ui::layout::pad_end(last_segment(k), 6), " "@ + m[k]))
        } else {
            r
        }
    }
}

fn last_segment_vec(v: &Vec<char>) -> (r: Vec<char>)
    ensures
        r@ == last_segment(v@),
{
    let mut i: usize = v.len();
    assert(v@.take(i as int) =~= v@);
    assert(v@.skip(i as int) =~= Seq::<char>::empty());
    assert(last_segment(v@) + Seq::<char>::empty() =~= last_segment(v@));
    while i > 0 && v[i - 1] != '.'
        invariant
            i <= v@.len(),
            last_segment(v@) == last_segment(v@.take(i as int)) + v@.skip(i as int),
        decreases i,
    {
        proof {
            let t = v@.take(i as int);
            assert(t.drop_last() =~= v@.take(i - 1));
            assert(v@.skip(i - 1) =~= seq![v@[i - 1]] + v@.skip(i as int));
            assert(last_segment(t) == last_segment(t.drop_last()).push(t.last()));
            assert(last_segment(t.drop_last()).push(t.last()) + v@.skip(i as int)
                =~= last_segment(v@.take(i - 1)) + v@.skip(i - 1));
        }
        i -= 1;
    }
    proof {
        assert(last_segment(v@.take(i as int)) =~= Seq::<char>::empty());
    }
    let r = crate::text::slice_vec(v, i, v.len());
    assert(r@ =~= v@.skip(i as int));
    r
}

impl WidgetDataStore {
    /// The rows of a key/value list widget over the paths `keys` (see
    /// `spec_kv_rows`).
    pub fn kv_rows(&self, keys: &Vec<String>) -> (r: Vec<(String, String)>)
        requires
            self.wf(),
        ensures
            r@.map_values(|p: (String, String)| (p.0@, p.1@)) == spec_kv_rows(
                keys@.map_values(|k: String| k@),
                self@,
            ),
    {
        let ghost kv = keys@.map_values(|k: String| k@);
        let mut out: Vec<(String, String)> = Vec::new();
        let mut i: usize = 0;
        while i < keys.len()
            invariant
                i <= keys@.len(),
                self.wf(),
                kv == keys@.map_values(|k: String| k@),
                out@.map_values(|p: (String, String)| (p.0@, p.1@)) == spec_kv_rows(kv.take(i as int), self@),
            decreases keys.len() - i,
        {
            proof {
                assert(kv.take(i + 1).drop_last() =~= kv.take(i as int));
                assert(kv.take(i + 1).last() == keys@[i as int]@);
            }
            match self.get(keys[i].as_str()) {
                Some(v) => {
                    let seg = last_segment_vec(&chars_of(keys[i].as_str()));
                    let label = crate::ui::layout::padded_end(&seg, 6);
                    let mut sp: Vec<char> = Vec::new();
                    sp.push(' ');
                    let value = concat_vec(&sp, &chars_of(v));
                    let ghost before = out@;
                    out.push((string_of(&label), string_of(&value)));
                    proof {
                        assert(sp@ =~= " "@) by {
                            reveal_strlit(" ");
                        }
                        assert(out@.map_values(|p: (String, String)| (p.0@, p.1@))
                            =~= before.map_values(|p: (String, String)| (p.0@, p.1@)).push((label@, value@)));
                    }
                },
                None => {},
            }
            i += 1;
        }
        assert(kv.take(keys@.len() as int) =~= kv);
        out
    }
}

/// `a` sorts before `b`: the order of their characters' code points, a
/// proper prefix first (the order of `String`, whose UTF-8 bytes sort the
/// same way).
pub open spec fn text_lt(a: Seq<char>, b: Seq<char>) -> bool
    decreases a.len(),
{
    if a.len() == 0 {
        b.len() > 0
    } else if b.len() == 0 {
        false
    } else if a[0] != b[0] {
        a[0] < b[0]
    } else {
        text_lt(a.drop_first(), b.drop_first())
    }
}

proof fn lemma_text_lt_total(a: Seq<char>, b: Seq<char>)
    requires
        a != b,
    ensures
        text_lt(a, b) || text_lt(b, a),
    decreases a.len(),
{
    if a.len() > 0 && b.len() > 0 && a[0] == b[0] {
        if a.drop_first() == b.drop_first() {
            assert(a =~= seq![a[0]] + a.drop_first());
            assert(b =~= seq![b[0]] + b.drop_first());
        }
        lemma_text_lt_total(a.drop_first(), b.drop_first());
    } else if a.len() == 0 && b.len() == 0 {
        assert(a =~= b);
    }
}

fn text_lt_vec(a: &Vec<char>, b: &Vec<char>) -> (r: bool)
    ensures
        r == text_lt(a@, b@),
{
    let mut i: usize = 0;
    assert(a@.skip(0) =~= a@);
    assert(b@.skip(0) =~= b@);
    while i < a.len() && i < b.len() && a[i] == b[i]
        invariant
            i <= a@.len(),
            i <= b@.len(),
            text_lt(a@, b@) == text_lt(a@.skip(i as int), b@.skip(i as int)),
        decreases a.len() - i,
    {
        proof {
            let x = a@.skip(i as int);
            let y = b@.skip(i as int);
            assert(x.drop_first() =~= a@.skip(i + 1));
            assert(y.drop_first() =~= b@.skip(i + 1));
        }
        i += 1;
    }
    proof {
        let x = a@.skip(i as int);
        let y = b@.skip(i as int);
        if i < a.len() && i < b.len() {
            assert(x[0] == a@[i as int] && y[0] == b@[i as int]);
        }
    }
    if i == a.len() {
        i < b.len()
    } else if i == b.len() {
        false
    } else {
        a[i] < b[i]
    }
}

/// Whether the path `k` has a row part (it holds a `.`).
pub open spec fn has_row(k: Seq<char>) -> bool {
    crate::text::find_char(k, '.') is Some
}

/// The row part of a path: before its first `.`.
pub open spec fn row_of(k: Seq<char>) -> Seq<char> {
    k.take(crate::text::find_char(k, '.')->0)
}

/// The column part of a path: after its first `.`.
pub open spec fn col_of(k: Seq<char>) -> Seq<char> {
    k.skip(crate::text::find_char(k, '.')->0 + 1)
}

/// The cells of row `r` of a grid widget over the paths `keys`: for each
/// path of that row with a value, in order, its column part padded to eight
/// columns and the value followed by two spaces.
pub open spec fn spec_grid_cells(keys: Seq<Seq<char>>, m: Map<Seq<char>, Seq<char>>, r: Seq<char>) -> Seq<(Seq<char>, Seq<char>)>
    decreases keys.len(),
{
    if keys.len() == 0 {
        seq![]
    } else {
        let c = spec_grid_cells(keys.drop_last(), m, r);
        let k = keys.last();
        if has_row(k) && m.contains_key(k) && row_of(k) == r {
            c.push((crate::ui::layout::pad_end(col_of(k), 8), m[k] + "  "@))
        } else {
            c
        }
    }
}

/// Whether some path of `keys` with a value lies in row `r`.
pub open spec fn row_used(keys: Seq<Seq<char>>, m: Map<Seq<char>, Seq<char>>, r: Seq<char>) -> bool {
    exists|i: int| 0 <= i < keys.len() && has_row(#[trigger] keys[i]) && m.contains_key(keys[i]) && row_of(keys[i]) == r
}

proof fn lemma_cells_empty(keys: Seq<Seq<char>>, m: Map<Seq<char>, Seq<char>>, r: Seq<char>)
    requires
        !row_used(keys, m, r),
    ensures
        spec_grid_cells(keys, m, r).len() == 0,
    decreases keys.len(),
{
    if keys.len() > 0 {
        let d = keys.drop_last();
        assert(!row_used(d, m, r)) by {
            if row_used(d, m, r) {
                let i = choose|i: int| 0 <= i < d.len() && has_row(#[trigger] d[i]) && m.contains_key(d[i]) && row_of(d[i]) == r;
                assert(keys[i] == d[i]);
            }
        }
        lemma_cells_empty(d, m, r);
        assert(keys[keys.len() - 1] == keys.last());
    }
}

/// The grid as plain values: each row's name and its cells.
pub open spec fn grid_view(g: Seq<(Vec<char>, Vec<(String, String)>)>) -> Seq<(Seq<char>, Seq<(Seq<char>, Seq<char>)>)> {
    g.map_values(|e: (Vec<char>, Vec<(String, String)>)| (e.0@, e.1@.map_values(|c: (String, String)| (c.0@, c.1@))))
}

/// The rows of a grid widget over the paths `keys` and the values `m`:
/// one row per row part that has a value, in ascending order of the row
/// names, each with its cells (see `spec_grid_cells`).
pub open spec fn grid_ok(keys: Seq<Seq<char>>, m: Map<Seq<char>, Seq<char>>, g: Seq<(Seq<char>, Seq<(Seq<char>, Seq<char>)>)>) -> bool {
    &&& forall|i: int| 0 < i < g.len() ==> text_lt(g[i - 1].0, #[trigger] g[i].0)
    &&& forall|i: int, j: int| 0 <= i < g.len() && 0 <= j < g.len() && i != j ==> (#[trigger] g[i]).0 != (#[trigger] g[j]).0
    &&& forall|i: int| 0 <= i < g.len() ==> (#[trigger] g[i]).1 == spec_grid_cells(keys, m, g[i].0) && row_used(keys, m, g[i].0)
    &&& forall|r: Seq<char>| #[trigger] row_used(keys, m, r) ==> exists|i: int| 0 <= i < g.len() && (#[trigger] g[i]).0 == r
}

proof fn lemma_find_char_bounds(s: Seq<char>)
    ensures
        crate::text::find_char(s, '.') matches Some(p) ==> 0 <= p < s.len() && s[p] == '.',
{
    crate::text::lemma_find_char_props(s, '.');
}

fn find_row(g: &Vec<(Vec<char>, Vec<(String, String)>)>, row: &Vec<char>) -> (j: usize)
    ensures
        j <= g@.len(),
        j < g@.len() ==> g@[j as int].0@ == row@,
        j == g@.len() ==> forall|t: int| 0 <= t < g@.len() ==> (#[trigger] g@[t]).0@ != row@,
{
    let mut j: usize = 0;
    while j < g.len()
        invariant
            j <= g@.len(),
            forall|t: int| 0 <= t < j ==> (#[trigger] g@[t]).0@ != row@,
        decreases g.len() - j,
    {
        if crate::text::chars_eq(&g[j].0, row) {
            return j;
        }
        j += 1;
    }
    j
}

impl WidgetDataStore {
    /// The rows of a grid widget over the paths `keys` (see `grid_ok`): the
    /// row names and their cells.
    #[verifier::rlimit(80)]
    pub fn grid_rows(&self, keys: &Vec<String>) -> (r: Vec<(Vec<char>, Vec<(String, String)>)>)
        requires
            self.wf(),
        ensures
            grid_ok(keys@.map_values(|k: String| k@), self@, grid_view(r@)),
    {
        let ghost kv = keys@.map_values(|k: String| k@);
        let mut g: Vec<(Vec<char>, Vec<(String, String)>)> = Vec::new();
        let mut i: usize = 0;
        while i < keys.len()
            invariant
                i <= keys@.len(),
                self.wf(),
                kv == keys@.map_values(|k: String| k@),
                grid_ok(kv.take(i as int), self@, grid_view(g@)),
            decreases keys.len() - i,
        {
            let ghost kt = kv.take(i as int);
            let ghost kn = kv.take(i + 1);
            let ghost gv = grid_view(g@);
            proof {
                assert(kn.drop_last() =~= kt);
                assert(kn.last() == keys@[i as int]@);
            }
            let key = chars_of(keys[i].as_str());
            let value = self.get(keys[i].as_str());
            let dot = crate::text::find_char_vec(&key, '.');
            proof {
                lemma_find_char_bounds(key@);
            }
            match (dot, value) {
                (Some(p), Some(v)) => {
                    let n = key.len();
                    assert(p < n);
                    let row = crate::text::slice_vec(&key, 0, p);
                    let col = crate::text::slice_vec(&key, p + 1, n);
                    let label = crate::ui::layout::padded_end(&col, 8);
                    let mut tail: Vec<char> = Vec::new();
                    tail.push(' ');
                    tail.push(' ');
                    let text = concat_vec(&chars_of(v), &tail);
                    let cell = (string_of(&label), string_of(&text));
                    proof {
                        assert(row@ =~= row_of(key@));
                        assert(col@ =~= col_of(key@));
                        assert(tail@ =~= "  "@) by {
                            reveal_strlit("  ");
                        }
                        assert(has_row(kn.last()) && self@.contains_key(kn.last()) && row_of(kn.last()) == row@);
                    }
                    let ghost cv = (cell.0@, cell.1@);
                    assert(cv == (crate::ui::layout::pad_end(col_of(kn.last()), 8), self@[kn.last()] + "  "@));
                    let j = find_row(&g, &row);
                    if j < g.len() {
                        let ghost before = g@;
                        let mut entry = g.remove(j);
                        entry.1.push(cell);
                        g.insert(j, entry);
                        proof {
                            assert(g@ =~= before.update(j as int, g@[j as int]));
                            let ng = grid_view(g@);
                            assert(ng[j as int].0 == row@);
                            assert(ng[j as int].1 =~= gv[j as int].1.push(cv));
                            assert forall|t: int| 0 <= t < ng.len() && t != j implies (#[trigger] ng[t]) == gv[t] by {}
                            assert forall|t: int| 0 <= t < ng.len() implies (#[trigger] ng[t]).1 == spec_grid_cells(kn, self@, ng[t].0)
                                && row_used(kn, self@, ng[t].0) by {
                                assert(row_used(kt, self@, gv[t].0));
                                let w = choose|w: int| 0 <= w < kt.len() && has_row(#[trigger] kt[w]) && self@.contains_key(kt[w]) && row_of(kt[w]) == gv[t].0;
                                assert(kn[w] == kt[w]);
                            }
                            assert forall|r: Seq<char>| #[trigger] row_used(kn, self@, r) implies exists|t: int| 0 <= t < ng.len() && (#[trigger] ng[t]).0 == r by {
                                let w = choose|w: int| 0 <= w < kn.len() && has_row(#[trigger] kn[w]) && self@.contains_key(kn[w]) && row_of(kn[w]) == r;
                                if w < kt.len() {
                                    assert(kt[w] == kn[w]);
                                    assert(row_used(kt, self@, r));
                                    let t = choose|t: int| 0 <= t < gv.len() && (#[trigger] gv[t]).0 == r;
                                    assert(ng[t].0 == r);
                                } else {
                                    assert(ng[j as int].0 == r);
                                }
                            }
                            assert forall|a: int| 0 < a < ng.len() implies text_lt(ng[a - 1].0, #[trigger] ng[a].0) by {
                                assert(text_lt(gv[a - 1].0, gv[a].0));
                            }
                        }
                    } else {
                        // A new row, placed before the first row that does
                        // not sort before it.
                        let mut q: usize = 0;
                        while q < g.len() && text_lt_vec(&g[q].0, &row)
                            invariant
                                q <= g@.len(),
                                forall|t: int| 0 <= t < q ==> text_lt((#[trigger] g@[t]).0@, row@),
                            decreases g.len() - q,
                        {
                            q += 1;
                        }
                        let mut cells: Vec<(String, String)> = Vec::new();
                        cells.push(cell);
                        let ghost before = g@;
                        let ghost rv = row@;
                        assert(cells@.map_values(|c: (String, String)| (c.0@, c.1@)) =~= seq![cv]);
                        g.insert(q, (row, cells));
                        proof {
                            let ng = grid_view(g@);
                            assert(ng =~= gv.insert(q as int, (rv, seq![cv])));
                            assert(!row_used(kt, self@, row@)) by {
                                if row_used(kt, self@, row@) {
                                    let t = choose|t: int| 0 <= t < gv.len() && (#[trigger] gv[t]).0 == row@;
                                    assert(before[t].0@ == row@);
                                }
                            }
                            lemma_cells_empty(kt, self@, row@);
                            assert(spec_grid_cells(kn, self@, row@) =~= seq![cv]);
                            if q < gv.len() {
                                assert(!text_lt(gv[q as int].0, row@));
                                assert(gv[q as int].0 != row@);
                                lemma_text_lt_total(gv[q as int].0, row@);
                            }
                            assert forall|t: int| 0 <= t < ng.len() implies (#[trigger] ng[t]).1 == spec_grid_cells(kn, self@, ng[t].0)
                                && row_used(kn, self@, ng[t].0) by {
                                if t == q {
                                    assert(kn[kt.len() as int] == kn.last());
                                } else {
                                    let u = if t < q { t } else { t - 1 };
                                    assert(ng[t] == gv[u]);
                                    assert(gv[u].0 != row@);
                                    assert(row_used(kt, self@, gv[u].0));
                                    let w = choose|w: int| 0 <= w < kt.len() && has_row(#[trigger] kt[w]) && self@.contains_key(kt[w]) && row_of(kt[w]) == gv[u].0;
                                    assert(kn[w] == kt[w]);
                                }
                            }
                            assert forall|a: int, b: int| 0 <= a < ng.len() && 0 <= b < ng.len() && a != b implies (#[trigger] ng[a]).0 != (#[trigger] ng[b]).0 by {
                                if a != q as int && b != q as int {
                                    let ua = if a < q { a } else { a - 1 };
                                    let ub = if b < q { b } else { b - 1 };
                                    assert(ng[a] == gv[ua]);
                                    assert(ng[b] == gv[ub]);
                                } else if a == q as int {
                                    let ub = if b < q { b } else { b - 1 };
                                    assert(ng[b] == gv[ub]);
                                    assert(before[ub].0@ != row@);
                                } else {
                                    let ua = if a < q { a } else { a - 1 };
                                    assert(ng[a] == gv[ua]);
                                    assert(before[ua].0@ != row@);
                                }
                            }
                            assert forall|a: int| 0 < a < ng.len() implies text_lt(ng[a - 1].0, #[trigger] ng[a].0) by {
                                if a < q {
                                    assert(ng[a] == gv[a] && ng[a - 1] == gv[a - 1]);
                                } else if a == q {
                                    assert(ng[a - 1] == gv[a - 1]);
                                    assert(text_lt(before[a - 1].0@, row@));
                                } else if a == q + 1 {
                                    assert(ng[a] == gv[q as int]);
                                } else {
                                    assert(ng[a] == gv[a - 1] && ng[a - 1] == gv[a - 2]);
                                }
                            }
                            assert forall|r: Seq<char>| #[trigger] row_used(kn, self@, r) implies exists|t: int| 0 <= t < ng.len() && (#[trigger] ng[t]).0 == r by {
                                let w = choose|w: int| 0 <= w < kn.len() && has_row(#[trigger] kn[w]) && self@.contains_key(kn[w]) && row_of(kn[w]) == r;
                                if w < kt.len() {
                                    assert(kt[w] == kn[w]);
                                    assert(row_used(kt, self@, r));
                                    let t = choose|t: int| 0 <= t < gv.len() && (#[trigger] gv[t]).0 == r;
                                    if t < q {
                                        assert(ng[t] == gv[t]);
                                    } else {
                                        assert(ng[t + 1] == gv[t]);
                                    }
                                } else {
                                    assert(ng[q as int].0 == r);
                                }
                            }
                        }
                    }
                },
                _ => {
                    proof {
                        let k = kn.last();
                        assert(!(has_row(k) && self@.contains_key(k)));
                        assert forall|t: int| 0 <= t < gv.len() implies (#[trigger] gv[t]).1 == spec_grid_cells(kn, self@, gv[t].0)
                            && row_used(kn, self@, gv[t].0) by {
                            let w = choose|w: int| 0 <= w < kt.len() && has_row(#[trigger] kt[w]) && self@.contains_key(kt[w]) && row_of(kt[w]) == gv[t].0;
                            assert(kn[w] == kt[w]);
                        }
                        assert forall|r: Seq<char>| #[trigger] row_used(kn, self@, r) implies exists|t: int| 0 <= t < gv.len() && (#[trigger] gv[t]).0 == r by {
                            let w = choose|w: int| 0 <= w < kn.len() && has_row(#[trigger] kn[w]) && self@.contains_key(kn[w]) && row_of(kn[w]) == r;
                            assert(w < kt.len());
                            assert(kt[w] == kn[w]);
                            assert(row_used(kt, self@, r));
                        }
                    }
                },
            }
            i += 1;
        }
        assert(kv.take(keys@.len() as int) =~= kv);
        g
    }
}

} // verus!
