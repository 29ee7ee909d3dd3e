use vstd::prelude::*;

verus! {

use vstd::slice::slice_index_get;

/// One located occurrence of a pattern (or of one of its capture groups) in
/// the input text: the matched substring and its inclusive-exclusive
/// offsets.
#[derive(Debug, Clone)]
pub struct SearchResult {
    pub value: String,
    pub start: i32,
    pub end: i32,
}

/// The mathematical shadow of a [`SearchResult`].
pub struct RecView {
    pub value: Seq<char>,
    pub start: int,
    pub end: int,
}

impl View for SearchResult {
    type V = RecView;

    open spec fn view(&self) -> RecView {
        RecView { value: self.value@, start: self.start as int, end: self.end as int }
    }
}

/// A record is well formed when its offsets describe a real span:
/// `0 <= start <= end`.
pub open spec fn rec_wf(r: RecView) -> bool {
    0 <= r.start <= r.end
}

/// A record is valid for a text when its offsets lie inside the text and
/// its value is exactly the spanned substring.
pub open spec fn rec_valid_for(r: RecView, text: Seq<char>) -> bool {
    &&& 0 <= r.start <= r.end <= text.len()
    &&& r.value == text.subrange(r.start, r.end)
}

/// The record views of a record sequence.
pub open spec fn recs_view(rs: Seq<SearchResult>) -> Seq<RecView> {
    Seq::new(rs.len(), |i: int| rs[i]@)
}

/// The character sequences of a list of pattern strings.
pub open spec fn str_views(ss: Seq<String>) -> Seq<Seq<char>> {
    Seq::new(ss.len(), |i: int| ss[i]@)
}

/// One pattern's full result: the pattern text and its ordered match
/// records.
#[derive(Debug, Clone)]
pub struct ResultObject {
    pub regex: String,
    pub lines: Vec<SearchResult>,
}

/// The mathematical shadow of a [`ResultObject`].
pub struct EntryView {
    pub regex: Seq<char>,
    pub lines: Seq<RecView>,
}

impl View for ResultObject {
    type V = EntryView;

    open spec fn view(&self) -> EntryView {
        EntryView { regex: self.regex@, lines: recs_view(self.lines@) }
    }
}

/// The aggregated report: one entry per distinct pattern, in first-seen
/// pattern order, so that a run's output is reproducible.
#[derive(Debug, Clone)]
pub struct RegexMap {
    pub matches: Vec<ResultObject>,
}

/// The distinct elements of `keys`, each at its first occurrence, in order.
pub open spec fn first_seen(keys: Seq<Seq<char>>) -> Seq<Seq<char>>
    decreases keys.len(),
{
    if keys.len() == 0 {
        Seq::empty()
    } else {
        let prefix = first_seen(keys.drop_last());
        if prefix.contains(keys.last()) {
            prefix
        } else {
            prefix.push(keys.last())
        }
    }
}

/// Every supplied key appears in the distinct-key sequence and nothing else
/// does: `first_seen` keeps exactly the set of supplied keys.
pub proof fn lemma_first_seen_complete(keys: Seq<Seq<char>>)
    ensures
        forall|k: Seq<char>| keys.contains(k) <==> #[trigger] first_seen(keys).contains(k),
    decreases keys.len(),
{
    if keys.len() > 0 {
        lemma_first_seen_complete(keys.drop_last());
        let prefix = first_seen(keys.drop_last());
        assert forall|k: Seq<char>| keys.contains(k) implies #[trigger] first_seen(
            keys,
        ).contains(k) by {
            let j = choose|j: int| 0 <= j < keys.len() && keys[j] == k;
            if j < keys.len() - 1 {
                assert(keys.drop_last()[j] == k);
                assert(keys.drop_last().contains(k));
                assert(prefix.contains(k));
                if !prefix.contains(keys.last()) {
                    let i = choose|i: int| 0 <= i < prefix.len() && prefix[i] == k;
                    assert(prefix.push(keys.last())[i] == k);
                }
            } else {
                if prefix.contains(keys.last()) {
                } else {
                    assert(prefix.push(keys.last()).last() == k);
                }
            }
        }
        assert forall|k: Seq<char>| #[trigger] first_seen(keys).contains(k) implies keys.contains(
            k,
        ) by {
            let i = choose|i: int| 0 <= i < first_seen(keys).len() && first_seen(keys)[i] == k;
            if prefix.contains(k) {
                let j = choose|j: int| 0 <= j < keys.drop_last().len() && keys.drop_last()[j] == k;
                assert(keys[j] == k);
            } else {
                assert(!prefix.contains(keys.last()) && first_seen(keys) == prefix.push(
                    keys.last(),
                ));
                if i < prefix.len() {
                    assert(prefix[i] == k);
                } else {
                    assert(k == keys.last());
                    assert(keys[keys.len() - 1] == k);
                }
            }
        }
    }
}

/// `first_seen` never repeats a key.
pub proof fn lemma_first_seen_distinct(keys: Seq<Seq<char>>)
    ensures
        forall|i: int, j: int|
            0 <= i < j < first_seen(keys).len() ==> first_seen(keys)[i] != first_seen(keys)[j],
    decreases keys.len(),
{
    if keys.len() > 0 {
        lemma_first_seen_distinct(keys.drop_last());
        let prefix = first_seen(keys.drop_last());
        if !prefix.contains(keys.last()) {
            assert forall|i: int, j: int|
                0 <= i < j < first_seen(keys).len() implies first_seen(keys)[i] != first_seen(
                keys,
            )[j] by {
                if j < prefix.len() {
                } else {
                    assert(first_seen(keys)[j] == keys.last());
                    assert(first_seen(keys)[i] == prefix[i]);
                    assert(!prefix.contains(keys.last()));
                    if prefix[i] == keys.last() {
                        assert(prefix.contains(keys.last()));
                    }
                }
            }
        }
    }
}

impl RegexMap {
    /// The report's keys, in entry order.
    pub open spec fn key_seq(&self) -> Seq<Seq<char>> {
        Seq::new(self.matches@.len(), |i: int| self.matches@[i].regex@)
    }

    /// Entry views, in entry order.
    pub open spec fn entries(&self) -> Seq<EntryView> {
        Seq::new(self.matches@.len(), |i: int| self.matches@[i]@)
    }

    /// No two entries share a key.
    pub open spec fn keys_distinct(&self) -> bool {
        forall|i: int, j: int|
            0 <= i < j < self.matches@.len() ==> self.matches@[i].regex@ != self.matches@[j].regex@
    }

    /// Every record of every entry describes a real span.
    pub open spec fn spans_wf(&self) -> bool {
        forall|i: int, l: int|
            0 <= i < self.matches@.len() && 0 <= l < self.matches@[i]@.lines.len() ==> rec_wf(
                #[trigger] self.matches@[i]@.lines[l],
            )
    }

    /// Well-formed report: keys are distinct and every record describes a
    /// real span.
    pub open spec fn wf(&self) -> bool {
        &&& self.keys_distinct()
        &&& self.spans_wf()
    }

    /// Builds the empty report: one entry per distinct pattern of `regexs`,
    /// keyed in first-seen order, every match sequence empty.
    pub fn new(regexs: &[String]) -> (r: Self)
        ensures
            r.wf(),
            r.key_seq() == first_seen(str_views(regexs@)),
            forall|i: int| 0 <= i < r.matches@.len() ==> r.matches@[i]@.lines.len() == 0,
    {
        let ghost all_keys = str_views(regexs@);
        let mut m: Vec<ResultObject> = Vec::new();
        let n: usize = regexs.len();
        let mut idx: usize = 0;
        while idx < n
            invariant
                n == regexs@.len(),
                0 <= idx <= n,
                all_keys == str_views(regexs@),
                Seq::new(m@.len(), |i: int| m@[i].regex@) == first_seen(
                    all_keys.take(idx as int),
                ),
                forall|i: int, j: int| 0 <= i < j < m@.len() ==> m@[i].regex@ != m@[j].regex@,
                forall|i: int| 0 <= i < m@.len() ==> m@[i]@.lines.len() == 0,
            decreases n - idx,
        {
            let ghost keys_before = Seq::new(m@.len(), |i: int| m@[i].regex@);
            let pat: &String = slice_index_get(regexs, idx);
            let mut present = false;
            let mlen: usize = m.len();
            let mut k: usize = 0;
            while k < mlen
                invariant
                    mlen == m@.len(),
                    0 <= k <= mlen,
                    keys_before == Seq::new(m@.len(), |i: int| m@[i].regex@),
                    present <==> exists|j: int| 0 <= j < k && m@[j].regex@ == pat@,
                decreases mlen - k,
            {
                if m[k].regex.eq(pat) {
                    present = true;
                }
                k = k + 1;
            }
            proof {
                if present {
                    let j = choose|j: int| 0 <= j < m@.len() && m@[j].regex@ == pat@;
                    assert(keys_before[j] == pat@);
                    assert(keys_before.contains(pat@));
                } else if keys_before.contains(pat@) {
                    let j = choose|j: int| 0 <= j < keys_before.len() && keys_before[j] == pat@;
                    assert(m@[j].regex@ == pat@);
                }
                assert(present <==> keys_before.contains(pat@));
                assert(all_keys.take(idx + 1).drop_last() =~= all_keys.take(idx as int));
                assert(all_keys.take(idx + 1).last() == pat@);
            }
            if !present {
                let entry = ResultObject { regex: pat.clone(), lines: Vec::new() };
                m.push(entry);
                proof {
                    assert(Seq::new(m@.len(), |i: int| m@[i].regex@) =~= keys_before.push(pat@));
                }
            } else {
                proof {
                    assert(Seq::new(m@.len(), |i: int| m@[i].regex@) =~= keys_before);
                }
            }
            idx = idx + 1;
        }
        proof {
            assert(all_keys.take(n as int) =~= all_keys);
        }
        RegexMap { matches: m }
    }

    /// Finds the entry index that owns key `pat`, if any.
    pub fn find_key(&self, pat: &String) -> (r: Option<usize>)
        ensures
            match r {
                Some(i) => 0 <= i < self.matches@.len() && self.matches@[i as int].regex@ == pat@,
                None => forall|i: int|
                    0 <= i < self.matches@.len() ==> self.matches@[i].regex@ != pat@,
            },
    {
        let n: usize = self.matches.len();
        let mut k: usize = 0;
        while k < n
            invariant
                n == self.matches@.len(),
                0 <= k <= n,
                forall|i: int| 0 <= i < k ==> self.matches@[i].regex@ != pat@,
            decreases n - k,
        {
            if self.matches[k].regex.eq(pat) {
                return Some(k);
            }
            k = k + 1;
        }
        None
    }

    /// Appends `items` to the match sequence of the entry at `idx`, leaving
    /// every other entry, and the key order, unchanged.
    pub fn record_at(&mut self, idx: usize, items: Vec<SearchResult>)
        requires
            0 <= idx < old(self).matches@.len(),
        ensures
            final(self).matches@.len() == old(self).matches@.len(),
            final(self).key_seq() == old(self).key_seq(),
            final(self).matches@[idx as int]@.regex == old(self).matches@[idx as int]@.regex,
            final(self).matches@[idx as int]@.lines == old(self).matches@[idx as int]@.lines
                + recs_view(items@),
            forall|i: int|
                0 <= i < old(self).matches@.len() && i != idx ==> final(self).matches@[i]
                    == old(self).matches@[i],
    {
        let mut entry = self.matches.remove(idx);
        let mut moved = items;
        entry.lines.append(&mut moved);
        let ghost entry_snap = entry;
        self.matches.insert(idx, entry);
        proof {
            assert(self.matches@ =~= old(self).matches@.update(idx as int, entry_snap));
            assert(self.matches@[idx as int]@.lines =~= old(self).matches@[idx as int]@.lines
                + recs_view(items@));
            assert(self.key_seq() =~= old(self).key_seq());
        }
    }
}

} // verus!
