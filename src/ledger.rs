//! The tracking ledger: which listings were announced, with the instant their
//! sale ends, and its text form inside a fenced message body.

use vstd::prelude::*;
use crate::json::same_text;
use crate::text::{
    chars_of, find_char, i64_parse, index_of, int_text, parse_i64, push_int, push_str, string_of,
    trim_end, trim_end_in_place, trim_start, trim_start_from, is_ws, is_digit, lemma_int_text_chars,
    lemma_int_text_parses,
};

verus! {

/// Announced listings, by machine name, with the second their sale ends. Keys
/// are unique; entries keep the order in which they were first inserted.
#[derive(Debug)]
pub struct Ledger {
    pub entries: Vec<(String, i64)>,
}

pub open spec fn map_of(s: Seq<(String, i64)>) -> Map<Seq<char>, i64>
    decreases s.len(),
{
    if s.len() == 0 {
        Map::empty()
    } else {
        map_of(s.drop_last()).insert(s.last().0@, s.last().1)
    }
}

pub open spec fn keys_unique(s: Seq<(String, i64)>) -> bool {
    forall|i: int, j: int| 0 <= i < j < s.len() ==> s[i].0@ != s[j].0@
}

/// The entries still running at `now`: those whose end is later than `now`.
pub open spec fn active_at(m: Map<Seq<char>, i64>, now: i64) -> Map<Seq<char>, i64> {
    Map::new(|k: Seq<char>| m.contains_key(k) && m[k] > now, |k: Seq<char>| m[k])
}

proof fn lemma_map_of(s: Seq<(String, i64)>)
    requires
        keys_unique(s),
    ensures
        forall|k: Seq<char>| #[trigger]
            map_of(s).contains_key(k) <==> exists|i: int| 0 <= i < s.len() && s[i].0@ == k,
        forall|i: int| 0 <= i < s.len() ==> #[trigger] map_of(s)[s[i].0@] == s[i].1,
    decreases s.len(),
{
    if s.len() > 0 {
        let p = s.drop_last();
        lemma_map_of(p);
        assert forall|k: Seq<char>| #[trigger]
            map_of(s).contains_key(k) <==> exists|i: int| 0 <= i < s.len() && s[i].0@ == k by {
            assert(map_of(s) == map_of(p).insert(s.last().0@, s.last().1));
            if map_of(s).contains_key(k) && k != s.last().0@ {
                assert(map_of(p).contains_key(k));
                let i = choose|i: int| 0 <= i < p.len() && p[i].0@ == k;
                assert(s[i] == p[i]);
            }
            if exists|i: int| 0 <= i < s.len() && s[i].0@ == k {
                let i = choose|i: int| 0 <= i < s.len() && s[i].0@ == k;
                if i < p.len() {
                    assert(p[i] == s[i]);
                }
            }
        }
        assert forall|i: int| 0 <= i < s.len() implies #[trigger] map_of(s)[s[i].0@] == s[i].1 by {
            assert(map_of(s) == map_of(p).insert(s.last().0@, s.last().1));
            if i < p.len() {
                assert(p[i] == s[i]);
                assert(s[i].0@ != s[s.len() - 1].0@);
            }
        }
    }
}

/// The entries of `s` that are still running at `now`, in order.
pub open spec fn active_entries(s: Seq<(String, i64)>, now: i64) -> Seq<(String, i64)>
    decreases s.len(),
{
    if s.len() == 0 {
        s
    } else if s.last().1 > now {
        active_entries(s.drop_last(), now).push(s.last())
    } else {
        active_entries(s.drop_last(), now)
    }
}

proof fn lemma_active_entries(s: Seq<(String, i64)>, now: i64)
    requires
        keys_unique(s),
    ensures
        keys_unique(active_entries(s, now)),
        map_of(active_entries(s, now)) == active_at(map_of(s), now),
        forall|j: int|
            0 <= j < active_entries(s, now).len() ==> exists|i: int|
                0 <= i < s.len() && s[i] == #[trigger] active_entries(s, now)[j],
    decreases s.len(),
{
    if s.len() > 0 {
        let p = s.drop_last();
        let f = active_entries(p, now);
        let k = s.last().0@;
        assert(keys_unique(p)) by {
            assert forall|a: int, b: int| 0 <= a < b < p.len() implies p[a].0@ != p[b].0@ by {
                assert(p[a] == s[a] && p[b] == s[b]);
            }
        }
        lemma_active_entries(p, now);
        lemma_map_of(p);
        assert(!map_of(p).contains_key(k)) by {
            if map_of(p).contains_key(k) {
                let i = choose|i: int| 0 <= i < p.len() && p[i].0@ == k;
                assert(s[i] == p[i]);
            }
        }
        assert(map_of(s) == map_of(p).insert(k, s.last().1));
        if s.last().1 > now {
            let g = active_entries(s, now);
            assert(g == f.push(s.last()));
            assert forall|a: int, b: int| 0 <= a < b < g.len() implies g[a].0@ != g[b].0@ by {
                assert(g[a] == f[a]);
                if b < f.len() {
                    assert(g[b] == f[b]);
                } else {
                    let i = choose|i: int| 0 <= i < p.len() && p[i] == #[trigger] f[a];
                    assert(s[i] == p[i]);
                }
            }
            assert forall|j: int| 0 <= j < g.len() implies exists|i: int|
                0 <= i < s.len() && s[i] == #[trigger] g[j] by {
                if j < f.len() {
                    let i = choose|i: int| 0 <= i < p.len() && p[i] == #[trigger] f[j];
                    assert(s[i] == p[i]);
                    assert(g[j] == f[j]);
                } else {
                    assert(g[j] == s[s.len() - 1]);
                }
            }
            assert(g.drop_last() =~= f);
            assert(map_of(g) == map_of(f).insert(k, s.last().1));
            let ms = map_of(s);
            let mp = map_of(p);
            assert forall|x: Seq<char>| #[trigger] map_of(g).contains_key(x) <==> active_at(ms, now).contains_key(x) by {
                if x != k {
                    assert(ms.contains_key(x) == mp.contains_key(x));
                }
            }
            assert forall|x: Seq<char>| map_of(g).contains_key(x) implies #[trigger] map_of(g)[x] == active_at(ms, now)[x] by {
                if x != k {
                    assert(ms[x] == mp[x]);
                }
            }
            assert(map_of(g) =~= active_at(map_of(s), now));
        } else {
            assert forall|j: int| 0 <= j < f.len() implies exists|i: int|
                0 <= i < s.len() && s[i] == #[trigger] f[j] by {
                let i = choose|i: int| 0 <= i < p.len() && p[i] == #[trigger] f[j];
                assert(s[i] == p[i]);
            }
            assert(map_of(f) =~= active_at(map_of(s), now));
        }
    }
}

impl View for Ledger {
    type V = Map<Seq<char>, i64>;

    open spec fn view(&self) -> Map<Seq<char>, i64> {
        map_of(self.entries@)
    }
}

impl Ledger {
    pub open spec fn wf(&self) -> bool {
        keys_unique(self.entries@)
    }

    pub fn new() -> (r: Ledger)
        ensures
            r.wf(),
            r@ == Map::<Seq<char>, i64>::empty(),
            r.entries@.len() == 0,
    {
        Ledger { entries: Vec::new() }
    }

    fn index_of_key(&self, key: &str) -> (r: Option<usize>)
        requires
            self.wf(),
        ensures
            match r {
                Some(i) => i < self.entries.len() && self.entries@[i as int].0@ == key@,
                None => !self@.contains_key(key@),
            },
    {
        let mut i: usize = 0;
        while i < self.entries.len()
            invariant
                i <= self.entries.len(),
                forall|j: int| 0 <= j < i ==> self.entries@[j].0@ != key@,
            decreases self.entries.len() - i,
        {
            if same_text(self.entries[i].0.as_str(), key) {
                return Some(i);
            }
            i = i + 1;
        }
        proof {
            lemma_map_of(self.entries@);
        }
        None
    }

    /// Whether `key` was announced.
    pub fn contains(&self, key: &str) -> (r: bool)
        requires
            self.wf(),
        ensures
            r == self@.contains_key(key@),
    {
        match self.index_of_key(key) {
            Some(i) => {
                proof {
                    lemma_map_of(self.entries@);
                }
                true
            },
            None => false,
        }
    }

    /// The end recorded for `key`, if any.
    pub fn get(&self, key: &str) -> (r: Option<i64>)
        requires
            self.wf(),
        ensures
            r == (if self@.contains_key(key@) { Some(self@[key@]) } else { None::<i64> }),
    {
        match self.index_of_key(key) {
            Some(i) => {
                proof {
                    lemma_map_of(self.entries@);
                }
                Some(self.entries[i].1)
            },
            None => None,
        }
    }

    /// Records `key` with the instant `end`, replacing what it had.
    pub fn insert(&mut self, key: String, end: i64)
        requires
            old(self).wf(),
        ensures
            final(self).wf(),
            final(self)@ == old(self)@.insert(key@, end),
    {
        let ghost before = self.entries@;
        match self.index_of_key(key.as_str()) {
            Some(i) => {
                self.entries.set(i, (key, end));
                proof {
                    let after = self.entries@;
                    assert forall|a: int, b: int| 0 <= a < b < after.len() implies after[a].0@
                        != after[b].0@ by {
                        assert(after[a].0@ == before[a].0@);
                        assert(after[b].0@ == before[b].0@);
                    }
                    lemma_map_of(before);
                    lemma_map_of(after);
                    assert forall|k: Seq<char>| map_of(after).contains_key(k) <==> map_of(
                        before,
                    ).insert(key@, end).contains_key(k) by {
                        if exists|j: int| 0 <= j < before.len() && before[j].0@ == k {
                            let j = choose|j: int| 0 <= j < before.len() && before[j].0@ == k;
                            assert(after[j].0@ == k);
                        }
                        if exists|j: int| 0 <= j < after.len() && after[j].0@ == k {
                            let j = choose|j: int| 0 <= j < after.len() && after[j].0@ == k;
                            assert(before[j].0@ == k);
                        }
                    }
                    assert forall|k: Seq<char>| map_of(after).contains_key(k) implies map_of(
                        after,
                    )[k] == map_of(before).insert(key@, end)[k] by {
                        let j = choose|j: int| 0 <= j < after.len() && after[j].0@ == k;
                        assert(map_of(after)[after[j].0@] == after[j].1);
                        if j != i {
                            assert(after[j] == before[j]);
                            assert(map_of(before)[before[j].0@] == before[j].1);
                        }
                    }
                    assert(map_of(after) =~= map_of(before).insert(key@, end));
                }
            },
            None => {
                self.entries.push((key, end));
                proof {
                    let after = self.entries@;
                    assert(after.drop_last() =~= before);
                    lemma_map_of(before);
                    assert forall|a: int, b: int| 0 <= a < b < after.len() implies after[a].0@
                        != after[b].0@ by {
                        if b == after.len() - 1 {
                            assert(after[a] == before[a]);
                        } else {
                            assert(after[a] == before[a]);
                            assert(after[b] == before[b]);
                        }
                    }
                }
            },
        }
    }

    /// Drops every entry whose end is not later than `now`.
    pub fn retain_active(&mut self, now: i64)
        requires
            old(self).wf(),
        ensures
            final(self).wf(),
            final(self)@ == active_at(old(self)@, now),
    {
        let ghost before = self.entries@;
        let mut kept: Vec<(String, i64)> = Vec::new();
        let n = self.entries.len();
        let mut i: usize = 0;
        assert(before.take(0) =~= Seq::<(String, i64)>::empty());
        while i < n
            invariant
                n == before.len(),
                i <= n,
                self.entries@ == before,
                kept@ == active_entries(before.take(i as int), now),
            decreases n - i,
        {
            assert(before.take(i + 1).drop_last() =~= before.take(i as int));
            if self.entries[i].1 > now {
                let e = (self.entries[i].0.clone(), self.entries[i].1);
                kept.push(e);
            }
            i = i + 1;
        }
        assert(before.take(n as int) =~= before);
        self.entries = kept;
        proof {
            lemma_active_entries(before, now);
        }
    }
}

/// The delimiter of a fenced block.
pub open spec fn fence() -> Seq<char> {
    seq!['`', '`', '`']
}

/// One line of the ledger's text: `machine_name,end`.
pub open spec fn line_text(e: (String, i64)) -> Seq<char> {
    e.0@ + seq![','] + int_text(e.1 as int)
}

/// The lines of `s`, joined by newlines.
pub open spec fn body_text(s: Seq<(String, i64)>) -> Seq<char>
    decreases s.len(),
{
    if s.len() == 0 {
        seq![]
    } else if s.len() == 1 {
        line_text(s[0])
    } else {
        body_text(s.drop_last()) + seq!['\n'] + line_text(s.last())
    }
}

/// The message body that holds the entries `s`: their lines inside a fence.
pub open spec fn message_text(s: Seq<(String, i64)>) -> Seq<char> {
    fence() + body_text(s) + fence()
}

/// `s` with every fence delimiter taken out, scanning from the left.
pub open spec fn strip_fences(s: Seq<char>) -> Seq<char>
    decreases s.len(),
{
    if s.len() >= 3 && s[0] == '`' && s[1] == '`' && s[2] == '`' {
        strip_fences(s.skip(3))
    } else if s.len() == 0 {
        s
    } else {
        seq![s[0]] + strip_fences(s.skip(1))
    }
}

/// The pieces of `cur + s` between newlines.
pub open spec fn split_acc(s: Seq<char>, cur: Seq<char>) -> Seq<Seq<char>>
    decreases s.len(),
{
    if s.len() == 0 {
        seq![cur]
    } else if s[0] == '\n' {
        seq![cur] + split_acc(s.skip(1), seq![])
    } else {
        split_acc(s.skip(1), cur.push(s[0]))
    }
}

/// The text between the fences, trimmed.
pub open spec fn ledger_inner(content: Seq<char>) -> Seq<char> {
    trim_start(trim_end(strip_fences(content)))
}

/// The lines of a ledger message body: none where the trimmed inner text is empty.
pub open spec fn ledger_lines(content: Seq<char>) -> Seq<Seq<char>> {
    let t = ledger_inner(content);
    if t.len() == 0 {
        seq![]
    } else {
        split_acc(t, seq![])
    }
}

pub open spec fn has_comma(l: Seq<char>) -> bool {
    index_of(l, ',') < l.len()
}

/// What stands before the first comma of a line.
pub open spec fn line_key(l: Seq<char>) -> Seq<char> {
    l.take(index_of(l, ','))
}

/// What stands after the first comma of a line.
pub open spec fn line_value(l: Seq<char>) -> Seq<char> {
    l.skip(index_of(l, ',') + 1)
}

pub open spec fn all_split(lines: Seq<Seq<char>>) -> bool {
    forall|i: int| 0 <= i < lines.len() ==> has_comma(#[trigger] lines[i])
}

pub open spec fn all_numeric(lines: Seq<Seq<char>>) -> bool {
    forall|i: int| 0 <= i < lines.len() ==> i64_parse(line_value(#[trigger] lines[i])) is Some
}

/// The map that the lines give, a later line winning over an earlier one.
pub open spec fn map_of_lines(lines: Seq<Seq<char>>) -> Map<Seq<char>, i64>
    decreases lines.len(),
{
    if lines.len() == 0 {
        Map::empty()
    } else {
        map_of_lines(lines.drop_last()).insert(
            line_key(lines.last()),
            i64_parse(line_value(lines.last()))->0,
        )
    }
}

/// Why a ledger message body could not be read.
#[derive(Debug, Clone, Copy, PartialEq, Eq, Structural)]
pub enum LedgerError {
    /// A line has no comma between name and end.
    MissingComma,
    /// An end is not an integer.
    BadTimestamp,
}

pub open spec fn line_views(v: Seq<Vec<char>>) -> Seq<Seq<char>> {
    v.map_values(|l: Vec<char>| l@)
}

fn copy_range(v: &Vec<char>, a: usize, b: usize) -> (r: Vec<char>)
    requires
        a <= b <= v.len(),
    ensures
        r@ == v@.subrange(a as int, b as int),
{
    let mut r: Vec<char> = Vec::new();
    let mut i = a;
    while i < b
        invariant
            a <= i <= b <= v.len(),
            r@ == v@.subrange(a as int, i as int),
        decreases b - i,
    {
        r.push(v[i]);
        i = i + 1;
        assert(r@ =~= v@.subrange(a as int, i as int));
    }
    r
}

/// Takes every fence delimiter out of `c`.
fn strip_fences_exec(c: &Vec<char>) -> (r: Vec<char>)
    ensures
        r@ == strip_fences(c@),
{
    let mut out: Vec<char> = Vec::new();
    let mut i: usize = 0;
    assert(c@.skip(0) =~= c@);
    while i < c.len()
        invariant
            i <= c.len(),
            out@ + strip_fences(c@.skip(i as int)) == strip_fences(c@),
        decreases c.len() - i,
    {
        let ghost rest = c@.skip(i as int);
        if c.len() - i >= 3 && c[i] == '`' && c[i + 1] == '`' && c[i + 2] == '`' {
            assert(rest.skip(3) =~= c@.skip(i + 3));
            i = i + 3;
        } else {
            assert(rest.skip(1) =~= c@.skip(i + 1));
            let ghost o = out@;
            out.push(c[i]);
            assert(out@ + strip_fences(c@.skip(i + 1)) =~= o + (seq![rest[0]] + strip_fences(rest.skip(1))));
            i = i + 1;
        }
    }
    assert(c@.skip(i as int).len() == 0);
    assert(out@ + strip_fences(c@.skip(i as int)) =~= out@);
    out
}

/// The lines of `t`, which is not empty, split at newlines.
fn split_lines(t: &Vec<char>, start: usize) -> (r: Vec<Vec<char>>)
    requires
        start <= t.len(),
    ensures
        line_views(r@) == split_acc(t@.subrange(start as int, t.len() as int), seq![]),
{
    let mut lines: Vec<Vec<char>> = Vec::new();
    let mut cur: Vec<char> = Vec::new();
    let mut i = start;
    let ghost u = t@.subrange(start as int, t.len() as int);
    while i < t.len()
        invariant
            start <= i <= t.len(),
            u == t@.subrange(start as int, t.len() as int),
            line_views(lines@) + split_acc(t@.subrange(i as int, t.len() as int), cur@) == split_acc(
                u,
                seq![],
            ),
        decreases t.len() - i,
    {
        let ghost rest = t@.subrange(i as int, t.len() as int);
        assert(rest.skip(1) =~= t@.subrange(i + 1, t.len() as int));
        let ghost lv = line_views(lines@);
        if t[i] == '\n' {
            let done = cur;
            let ghost d = done@;
            lines.push(done);
            cur = Vec::new();
            assert(line_views(lines@) =~= lv.push(d));
            assert(lv + split_acc(rest, d) =~= lv.push(d) + split_acc(rest.skip(1), seq![]));
        } else {
            cur.push(t[i]);
        }
        i = i + 1;
    }
    let ghost lv = line_views(lines@);
    let ghost d = cur@;
    lines.push(cur);
    assert(line_views(lines@) =~= lv.push(d));
    assert(lv + split_acc(t@.subrange(i as int, t.len() as int), d) =~= lv.push(d));
    lines
}

impl Ledger {
    /// The message body that holds the ledger: `machine_name,end` lines inside a fence.
    pub fn to_message(&self) -> (r: String)
        ensures
            r@ == message_text(self.entries@),
    {
        let mut v: Vec<char> = Vec::new();
        v.push('`');
        v.push('`');
        v.push('`');
        assert(v@ =~= fence());
        let ghost s = self.entries@;
        let mut i: usize = 0;
        assert(s.take(0) =~= Seq::<(String, i64)>::empty());
        while i < self.entries.len()
            invariant
                s == self.entries@,
                i <= s.len(),
                v@ == fence() + body_text(s.take(i as int)),
            decreases s.len() - i,
        {
            assert(s.take(i + 1).drop_last() =~= s.take(i as int));
            let ghost pre = v@;
            if i > 0 {
                v.push('\n');
            }
            push_str(&mut v, self.entries[i].0.as_str());
            v.push(',');
            push_int(&mut v, self.entries[i].1);
            assert(s.take(i + 1).last() == s[i as int]);
            if i == 0 {
                assert(v@ =~= pre + line_text(s[0]));
            } else {
                assert(v@ =~= pre + seq!['\n'] + line_text(s[i as int]));
            }
            i = i + 1;
        }
        assert(s.take(i as int) =~= s);
        let ghost pre = v@;
        v.push('`');
        v.push('`');
        v.push('`');
        assert(v@ =~= pre + fence());
        string_of(&v)
    }

    /// Reads a ledger from its message body.
    pub fn from_message(content: &str) -> (r: Result<Ledger, LedgerError>)
        ensures
            r == Err::<Ledger, LedgerError>(LedgerError::MissingComma) <==> !all_split(
                ledger_lines(content@),
            ),
            r == Err::<Ledger, LedgerError>(LedgerError::BadTimestamp) <==> (all_split(
                ledger_lines(content@),
            ) && !all_numeric(ledger_lines(content@))),
            r is Ok ==> r->Ok_0.wf() && r->Ok_0@ == map_of_lines(ledger_lines(content@)),
    {
        let c = chars_of(content);
        let mut t = strip_fences_exec(&c);
        trim_end_in_place(&mut t);
        assert(t@.subrange(0, t.len() as int) =~= t@);
        let start = trim_start_from(&t, 0);
        let lines: Vec<Vec<char>> = if start == t.len() {
            assert(ledger_inner(content@).len() == 0);
            Vec::new()
        } else {
            split_lines(&t, start)
        };
        let ghost ls = ledger_lines(content@);
        assert(line_views(lines@) =~= ls);
        let mut i: usize = 0;
        while i < lines.len()
            invariant
                i <= lines.len(),
                line_views(lines@) == ls,
                ls == ledger_lines(content@),
                forall|j: int| 0 <= j < i ==> has_comma(#[trigger] ls[j]),
            decreases lines.len() - i,
        {
            assert(ls[i as int] == lines@[i as int]@);
            assert(lines[i as int]@.subrange(0, lines[i as int].len() as int) =~= lines[i as int]@);
            if find_char(&lines[i], 0, lines[i].len(), ',') == lines[i].len() {
                assert(!has_comma(ls[i as int]));
                return Err(LedgerError::MissingComma);
            }
            i = i + 1;
        }
        let mut ledger = Ledger::new();
        let mut i: usize = 0;
        assert(ls.take(0) =~= Seq::<Seq<char>>::empty());
        while i < lines.len()
            invariant
                i <= lines.len(),
                line_views(lines@) == ls,
                ls == ledger_lines(content@),
                all_split(ls),
                ledger.wf(),
                ledger@ == map_of_lines(ls.take(i as int)),
                forall|j: int| 0 <= j < i ==> i64_parse(line_value(#[trigger] ls[j])) is Some,
            decreases lines.len() - i,
        {
            let l = &lines[i];
            assert(ls[i as int] == l@);
            assert(l@.subrange(0, l.len() as int) =~= l@);
            let comma = find_char(l, 0, l.len(), ',');
            assert(has_comma(ls[i as int]));
            assert(l@.subrange(comma + 1, l.len() as int) =~= line_value(l@));
            let v = match parse_i64(l, comma + 1, l.len()) {
                Some(v) => v,
                None => {
                    assert(i64_parse(line_value(ls[i as int])) is None);
                    return Err(LedgerError::BadTimestamp);
                },
            };
            let key = string_of(&copy_range(l, 0, comma));
            assert(key@ =~= line_key(l@));
            ledger.insert(key, v);
            assert(ls.take(i + 1).drop_last() =~= ls.take(i as int));
            assert(ls.take(i + 1).last() == ls[i as int]);
            i = i + 1;
        }
        assert(ls.take(i as int) =~= ls);
        Ok(ledger)
    }
}

pub open spec fn no_char(s: Seq<char>, c: char) -> bool {
    forall|i: int| 0 <= i < s.len() ==> s[i] != c
}

/// A machine name that the text form can carry: no comma, newline or backtick.
pub open spec fn plain_key(k: Seq<char>) -> bool {
    no_char(k, ',') && no_char(k, '\n') && no_char(k, '`')
}

/// Entries whose text form reads back as they are: unique plain keys, the
/// first of which does not start with whitespace (the reader trims it).
pub open spec fn text_safe(s: Seq<(String, i64)>) -> bool {
    &&& keys_unique(s)
    &&& forall|i: int| 0 <= i < s.len() ==> plain_key(#[trigger] s[i].0@)
    &&& s.len() > 0 ==> (s[0].0@.len() == 0 || !is_ws(s[0].0@[0]))
}

proof fn lemma_strip_plain(x: Seq<char>)
    requires
        no_char(x, '`'),
    ensures
        strip_fences(x + fence()) == x,
    decreases x.len(),
{
    let y = x + fence();
    if x.len() == 0 {
        assert(y.skip(3) =~= Seq::<char>::empty());
        assert(y =~= fence());
        assert(x =~= Seq::<char>::empty());
        assert(strip_fences(y.skip(3)) == Seq::<char>::empty());
    } else {
        assert(y[0] == x[0]);
        assert(x[0] != '`');
        assert(y.skip(1) =~= x.skip(1) + fence());
        lemma_strip_plain(x.skip(1));
        assert(strip_fences(y) == seq![y[0]] + strip_fences(y.skip(1)));
        assert(seq![x[0]] + x.skip(1) =~= x);
    }
}

proof fn lemma_line_chars(e: (String, i64))
    requires
        plain_key(e.0@),
    ensures
        no_char(line_text(e), '`'),
        no_char(line_text(e), '\n'),
        line_text(e).len() > 0,
        is_digit(line_text(e).last()),
        e.0@.len() == 0 ==> line_text(e)[0] == ',',
        e.0@.len() > 0 ==> line_text(e)[0] == e.0@[0],
{
    lemma_int_text_chars(e.1 as int);
    let k = e.0@;
    let t = int_text(e.1 as int);
    let l = line_text(e);
    assert forall|i: int| 0 <= i < l.len() implies l[i] != '`' && l[i] != '\n' by {
        if i < k.len() {
            assert(l[i] == k[i]);
        } else if i > k.len() {
            assert(l[i] == t[i - k.len() - 1]);
        }
    }
    assert(l.last() == t.last());
}

proof fn lemma_body_chars(s: Seq<(String, i64)>)
    requires
        forall|i: int| 0 <= i < s.len() ==> plain_key(#[trigger] s[i].0@),
    ensures
        no_char(body_text(s), '`'),
        s.len() > 0 ==> body_text(s).len() > 0 && is_digit(body_text(s).last()) && body_text(s)[0]
            == line_text(s[0])[0],
    decreases s.len(),
{
    if s.len() == 1 {
        lemma_line_chars(s[0]);
    } else if s.len() > 1 {
        let p = s.drop_last();
        assert forall|i: int| 0 <= i < p.len() implies plain_key(#[trigger] p[i].0@) by {
            assert(p[i] == s[i]);
        }
        lemma_body_chars(p);
        lemma_line_chars(s.last());
        assert(plain_key(s[s.len() - 1].0@));
        let b = body_text(s);
        let bp = body_text(p);
        let l = line_text(s.last());
        assert(b == bp + seq!['\n'] + l);
        assert forall|i: int| 0 <= i < b.len() implies b[i] != '`' by {
            if i < bp.len() {
                assert(b[i] == bp[i]);
            } else if i > bp.len() {
                assert(b[i] == l[i - bp.len() - 1]);
            }
        }
        assert(b.last() == l.last());
        assert(p[0] == s[0]);
    }
}

proof fn lemma_split_plain(x: Seq<char>, cur: Seq<char>)
    requires
        no_char(x, '\n'),
    ensures
        split_acc(x, cur) == seq![cur + x],
    decreases x.len(),
{
    if x.len() == 0 {
        assert(cur + x =~= cur);
    } else {
        lemma_split_plain(x.skip(1), cur.push(x[0]));
        assert(cur.push(x[0]) + x.skip(1) =~= cur + x);
    }
}

proof fn lemma_split_join(x: Seq<char>, y: Seq<char>, cur: Seq<char>)
    ensures
        split_acc(x + seq!['\n'] + y, cur) == split_acc(x, cur) + split_acc(y, seq![]),
    decreases x.len(),
{
    let z = x + seq!['\n'] + y;
    if x.len() == 0 {
        assert(z.skip(1) =~= y);
        assert(z[0] == '\n');
    } else {
        assert(z[0] == x[0]);
        assert(z.skip(1) =~= x.skip(1) + seq!['\n'] + y);
        if x[0] == '\n' {
            lemma_split_join(x.skip(1), y, seq![]);
            assert(seq![cur] + (split_acc(x.skip(1), seq![]) + split_acc(y, seq![])) =~= (seq![cur]
                + split_acc(x.skip(1), seq![])) + split_acc(y, seq![]));
        } else {
            lemma_split_join(x.skip(1), y, cur.push(x[0]));
        }
    }
}

proof fn lemma_lines_of_body(s: Seq<(String, i64)>)
    requires
        s.len() > 0,
        forall|i: int| 0 <= i < s.len() ==> plain_key(#[trigger] s[i].0@),
    ensures
        split_acc(body_text(s), seq![]) == s.map_values(|e: (String, i64)| line_text(e)),
    decreases s.len(),
{
    if s.len() == 1 {
        lemma_line_chars(s[0]);
        lemma_split_plain(line_text(s[0]), seq![]);
        assert(seq![] + line_text(s[0]) =~= line_text(s[0]));
        assert(s.map_values(|e: (String, i64)| line_text(e)) =~= seq![line_text(s[0])]);
    } else {
        let p = s.drop_last();
        assert forall|i: int| 0 <= i < p.len() implies plain_key(#[trigger] p[i].0@) by {
            assert(p[i] == s[i]);
        }
        lemma_lines_of_body(p);
        assert(plain_key(s[s.len() - 1].0@));
        lemma_line_chars(s.last());
        lemma_split_join(body_text(p), line_text(s.last()), seq![]);
        lemma_split_plain(line_text(s.last()), seq![]);
        assert(seq![] + line_text(s.last()) =~= line_text(s.last()));
        assert(s.map_values(|e: (String, i64)| line_text(e)) =~= p.map_values(
            |e: (String, i64)| line_text(e),
        ).push(line_text(s.last())));
    }
}

proof fn lemma_line_parts(e: (String, i64))
    requires
        plain_key(e.0@),
    ensures
        has_comma(line_text(e)),
        line_key(line_text(e)) == e.0@,
        line_value(line_text(e)) == int_text(e.1 as int),
{
    let k = e.0@;
    lemma_index_after(k, int_text(e.1 as int));
    let l = line_text(e);
    assert(l.take(k.len() as int) =~= k);
    assert(l.skip(k.len() as int + 1) =~= int_text(e.1 as int));
}

proof fn lemma_index_after(k: Seq<char>, r: Seq<char>)
    requires
        no_char(k, ','),
    ensures
        index_of(k + seq![','] + r, ',') == k.len(),
    decreases k.len(),
{
    let l = k + seq![','] + r;
    if k.len() > 0 {
        assert(l[0] == k[0]);
        assert(l.skip(1) =~= k.skip(1) + seq![','] + r);
        lemma_index_after(k.skip(1), r);
    } else {
        assert(l[0] == ',');
    }
}

proof fn lemma_map_of_lines(s: Seq<(String, i64)>)
    requires
        forall|i: int| 0 <= i < s.len() ==> plain_key(#[trigger] s[i].0@),
    ensures
        map_of_lines(s.map_values(|e: (String, i64)| line_text(e))) == map_of(s),
    decreases s.len(),
{
    let ls = s.map_values(|e: (String, i64)| line_text(e));
    if s.len() > 0 {
        let p = s.drop_last();
        assert forall|i: int| 0 <= i < p.len() implies plain_key(#[trigger] p[i].0@) by {
            assert(p[i] == s[i]);
        }
        lemma_map_of_lines(p);
        assert(ls.drop_last() =~= p.map_values(|e: (String, i64)| line_text(e)));
        assert(plain_key(s[s.len() - 1].0@));
        lemma_line_parts(s.last());
        lemma_int_text_parses(s.last().1);
    } else {
        assert(ls.len() == 0);
    }
}

/// Writing a ledger out and reading the text back gives the same map,
/// whatever the order of its entries, for machine names that the text form
/// can carry.
pub proof fn lemma_ledger_round_trip(l: Ledger)
    requires
        text_safe(l.entries@),
    ensures
        ({
            let lines = ledger_lines(message_text(l.entries@));
            &&& all_split(lines)
            &&& all_numeric(lines)
            &&& map_of_lines(lines) == l@
        }),
{
    let s = l.entries@;
    let b = body_text(s);
    lemma_body_chars(s);
    assert(message_text(s) =~= fence() + (b + fence()));
    assert((fence() + (b + fence())).skip(3) =~= b + fence());
    lemma_strip_plain(b);
    assert(strip_fences(message_text(s)) == b);
    if b.len() > 0 {
        assert(!is_ws(b.last()));
    }
    assert(trim_end(b) == b);
    if s.len() > 0 {
        assert(plain_key(s[0].0@));
        lemma_line_chars(s[0]);
        assert(!is_ws(b[0]));
    }
    assert(trim_start(b) == b);
    assert(ledger_inner(message_text(s)) == b);
    let lines = ledger_lines(message_text(s));
    lemma_map_of_lines(s);
    if s.len() > 0 {
        lemma_lines_of_body(s);
        assert(lines == s.map_values(|e: (String, i64)| line_text(e)));
        assert forall|i: int| 0 <= i < lines.len() implies has_comma(#[trigger] lines[i]) && i64_parse(
            line_value(lines[i]),
        ) is Some by {
            assert(plain_key(s[i].0@));
            lemma_line_parts(s[i]);
            lemma_int_text_parses(s[i].1);
        }
    } else {
        assert(lines.len() == 0);
        assert(s.map_values(|e: (String, i64)| line_text(e)) =~= lines);
    }
}

} // verus!
