use vstd::prelude::*;

use rayon::iter::IntoParallelRefIterator;
use rayon::iter::ParallelIterator;

verus! {

use vstd::string::StringSliceAdditionalSpecFns;
use vstd::pervasive::unreached;
use crate::cli::FlagArgs;
use crate::match_structs::{
    SearchResult,
    RecView,
    rec_wf,
    rec_valid_for,
    RegexMap,
    first_seen,
    lemma_first_seen_complete,
    recs_view,
    str_views,
};

/// Whether the matcher accepts `pattern` as a valid pattern under the given
/// flags. Acceptance is a deterministic function of the pattern text and
/// the flags alone.
pub uninterp spec fn pattern_ok(
    pattern: Seq<char>,
    case_insensitive: bool,
    multiline: bool,
    unicode: bool,
) -> bool;

/// The ordered record sequence that one pattern produces on one text: for
/// each occurrence, left to right, the full match followed by each
/// participating capture group's match, in group-index order. A
/// deterministic function of the pattern text, the flags and the input
/// text alone.
pub uninterp spec fn found_matches(
    pattern: Seq<char>,
    case_insensitive: bool,
    multiline: bool,
    unicode: bool,
    text: Seq<char>,
) -> Seq<RecView>;

/// The executable form of one pattern: its text and the run's flags, known
/// to be accepted by the matcher. Compilation is deterministic, so the
/// matcher object itself need not be carried along: it is rebuilt from
/// these two fields, to an equivalent matcher, wherever it is needed.
#[derive(Debug, Clone)]
pub struct CompiledPattern {
    pub pattern: String,
    pub flags: FlagArgs,
}

impl CompiledPattern {
    /// The pattern is accepted under its flags.
    pub open spec fn wf(&self) -> bool {
        pattern_ok(
            self.pattern@,
            self.flags.case_insensitive,
            self.flags.multiline,
            self.flags.unicode,
        )
    }
}

/// A pattern string that the matcher rejects under the active flags. Fatal:
/// a run with a rejected pattern produces no report at all.
#[derive(Debug, Clone)]
pub struct PatternError {
    /// The offending pattern text.
    pub pattern: String,
}

#[verifier::external_type_specification]
#[verifier::external_body]
pub struct ExRegexError(regex::Error);

/// Relies on `regex::RegexBuilder`: `build` applies the three mode flags to
/// the pattern and returns `Ok` exactly when the pattern is valid under
/// them; success is a deterministic function of the pattern and the flags.
#[verifier::external_body]
fn try_compile(pattern: &str, flags: &FlagArgs) -> (r: Result<(), regex::Error>)
    ensures
        r.is_ok() == pattern_ok(
            pattern@,
            flags.case_insensitive,
            flags.multiline,
            flags.unicode,
        ),
{
    let built = regex::RegexBuilder::new(pattern)
        .multi_line(flags.multiline)
        .case_insensitive(flags.case_insensitive)
        .unicode(flags.unicode)
        .build();
    match built {
        Ok(_) => Ok(()),
        Err(e) => Err(e),
    }
}

/// Relies on `regex::Regex::captures_iter` (and `RegexBuilder::build`, which
/// cannot fail here): the matches of a pattern are a deterministic function
/// of the pattern, the flags and the text; each `Match` carries byte
/// offsets with `start() <= end() <= text.len()` and `as_str()` equal to
/// the haystack slice between them, so on ASCII text the offsets are
/// character offsets and the value is the spanned substring. Groups that
/// did not participate in an occurrence yield no `Match`.
#[verifier::external_body]
fn run_pattern(pattern: &str, flags: &FlagArgs, text: &str) -> (r: Vec<SearchResult>)
    requires
        pattern_ok(pattern@, flags.case_insensitive, flags.multiline, flags.unicode),
        text.spec_bytes().len() <= 0x7fff_ffff,
    ensures
        recs_view(r@) == found_matches(
            pattern@,
            flags.case_insensitive,
            flags.multiline,
            flags.unicode,
            text@,
        ),
        forall|i: int| 0 <= i < r@.len() ==> rec_wf(#[trigger] r@[i]@),
        text.is_ascii() ==> forall|i: int|
            0 <= i < r@.len() ==> rec_valid_for(#[trigger] r@[i]@, text@),
{
    let re = regex::RegexBuilder::new(pattern).multi_line(flags.multiline)
        .case_insensitive(flags.case_insensitive).unicode(flags.unicode).build().unwrap();
    re.captures_iter(text).flat_map(|caps| {
        caps.iter().filter_map(|m| m.map(|ma| SearchResult {
            value: ma.as_str().to_string(), start: ma.start() as i32, end: ma.end() as i32,
        })).collect::<Vec<SearchResult>>()
    }).collect()
}

/// Runs one compiled pattern over the whole text and returns its ordered
/// match records: per occurrence the full match first, then each
/// participating capture group's record.
pub fn get_matched_items(p: &CompiledPattern, text: &str) -> (r: Vec<SearchResult>)
    requires
        p.wf(),
        text.spec_bytes().len() <= 0x7fff_ffff,
    ensures
        recs_view(r@) == found_matches(
            p.pattern@,
            p.flags.case_insensitive,
            p.flags.multiline,
            p.flags.unicode,
            text@,
        ),
        forall|i: int| 0 <= i < r@.len() ==> rec_wf(#[trigger] r@[i]@),
        text.is_ascii() ==> forall|i: int|
            0 <= i < r@.len() ==> rec_valid_for(#[trigger] r@[i]@, text@),
{
    run_pattern(p.pattern.as_str(), &p.flags, text)
}

/// Relies on rayon's `par_iter().map(..).collect()`: it applies the given
/// closure (here: the verified per-pattern extraction) to every element
/// and collects the results in input order, whatever order the parallel
/// tasks complete in.
#[verifier::external_body]
fn par_extract(patterns: &Vec<CompiledPattern>, text: &str) -> (r: Vec<Vec<SearchResult>>)
    requires
        forall|i: int| 0 <= i < patterns@.len() ==> (#[trigger] patterns@[i]).wf(),
        text.spec_bytes().len() <= 0x7fff_ffff,
    ensures
        r@.len() == patterns@.len(),
        forall|i: int|
            0 <= i < r@.len() ==> recs_view(r@[i]@) == found_matches(
                (#[trigger] patterns@[i]).pattern@,
                patterns@[i].flags.case_insensitive,
                patterns@[i].flags.multiline,
                patterns@[i].flags.unicode,
                text@,
            ),
        forall|i: int, l: int|
            0 <= i < r@.len() && 0 <= l < r@[i]@.len() ==> rec_wf(#[trigger] r@[i]@[l]@),
        text.is_ascii() ==> forall|i: int, l: int|
            0 <= i < r@.len() && 0 <= l < r@[i]@.len() ==> rec_valid_for(
                #[trigger] r@[i]@[l]@,
                text@,
            ),
{
    patterns.par_iter().map(|p| get_matched_items(p, text)).collect()
}

/// Compiles every pattern of the run, in order, under the run's flags.
/// Fails fast with the first rejected pattern, before any extraction.
pub fn build_regex(regex_set: Vec<String>, flags: &FlagArgs) -> (r: Result<
    Vec<CompiledPattern>,
    PatternError,
>)
    ensures
        match r {
            Ok(ps) => {
                &&& ps@.len() == regex_set@.len()
                &&& forall|i: int|
                    0 <= i < ps@.len() ==> (#[trigger] ps@[i]).pattern@ == regex_set@[i]@
                        && ps@[i].flags == *flags && ps@[i].wf()
            },
            Err(e) => exists|i: int|
                {
                    &&& 0 <= i < regex_set@.len()
                    &&& e.pattern@ == #[trigger] regex_set@[i]@
                    &&& !pattern_ok(
                        regex_set@[i]@,
                        flags.case_insensitive,
                        flags.multiline,
                        flags.unicode,
                    )
                    &&& forall|j: int|
                        0 <= j < i ==> pattern_ok(
                            #[trigger] regex_set@[j]@,
                            flags.case_insensitive,
                            flags.multiline,
                            flags.unicode,
                        )
                },
        },
{
    let n: usize = regex_set.len();
    let mut out: Vec<CompiledPattern> = Vec::new();
    let mut i: usize = 0;
    while i < n
        invariant
            n == regex_set@.len(),
            0 <= i <= n,
            out@.len() == i,
            forall|j: int|
                0 <= j < i ==> (#[trigger] out@[j]).pattern@ == regex_set@[j]@ && out@[j].flags
                    == *flags && out@[j].wf(),
        decreases n - i,
    {
        let pat: &String = &regex_set[i];
        match try_compile(pat.as_str(), flags) {
            Ok(_) => {
                out.push(CompiledPattern { pattern: pat.clone(), flags: *flags });
            },
            Err(_) => {
                let e = PatternError { pattern: pat.clone() };
                proof {
                    assert(0 <= i < regex_set@.len() && e.pattern@ == regex_set@[i as int]@
                        && !pattern_ok(
                        regex_set@[i as int]@,
                        flags.case_insensitive,
                        flags.multiline,
                        flags.unicode,
                    ));
                    assert forall|j: int| 0 <= j < i implies pattern_ok(
                        #[trigger] regex_set@[j]@,
                        flags.case_insensitive,
                        flags.multiline,
                        flags.unicode,
                    ) by {
                        assert(out@[j].pattern@ == regex_set@[j]@);
                        assert(out@[j].wf());
                    }
                }
                return Err(e);
            },
        }
        i = i + 1;
    }
    Ok(out)
}

/// How often `k` occurs in `keys`.
pub open spec fn count_occ(keys: Seq<Seq<char>>, k: Seq<char>) -> nat
    decreases keys.len(),
{
    if keys.len() == 0 {
        0
    } else {
        count_occ(keys.drop_last(), k) + if keys.last() == k {
            1nat
        } else {
            0nat
        }
    }
}

/// `n` copies of `s`, concatenated.
pub open spec fn repeat_recs(s: Seq<RecView>, n: nat) -> Seq<RecView>
    decreases n,
{
    if n == 0 {
        Seq::empty()
    } else {
        repeat_recs(s, (n - 1) as nat) + s
    }
}

/// The finished report's match sequence for key `k`: the concatenation, in
/// task-arrival order, of the records computed for every occurrence of `k`
/// in the supplied pattern list. Occurrences of one key share their pattern
/// text, so each contributes the same record sequence once.
pub open spec fn entry_matches(
    k: Seq<char>,
    patterns: Seq<Seq<char>>,
    case_insensitive: bool,
    multiline: bool,
    unicode: bool,
    text: Seq<char>,
) -> Seq<RecView> {
    repeat_recs(
        found_matches(k, case_insensitive, multiline, unicode, text),
        count_occ(patterns, k),
    )
}

/// A pattern with no occurrence in the text still owns a report entry — it
/// is never absent — and that entry's match sequence is empty.
pub proof fn lemma_no_occurrence_empty_entry(
    k: Seq<char>,
    patterns: Seq<Seq<char>>,
    case_insensitive: bool,
    multiline: bool,
    unicode: bool,
    text: Seq<char>,
)
    requires
        patterns.contains(k),
        found_matches(k, case_insensitive, multiline, unicode, text).len() == 0,
    ensures
        first_seen(patterns).contains(k),
        entry_matches(k, patterns, case_insensitive, multiline, unicode, text).len() == 0,
{
    lemma_first_seen_complete(patterns);
    lemma_repeat_of_empty(
        found_matches(k, case_insensitive, multiline, unicode, text),
        count_occ(patterns, k),
    );
}

proof fn lemma_repeat_of_empty(s: Seq<RecView>, n: nat)
    requires
        s.len() == 0,
    ensures
        repeat_recs(s, n).len() == 0,
    decreases n,
{
    if n > 0 {
        lemma_repeat_of_empty(s, (n - 1) as nat);
    }
}

/// Supplying a pattern list a second occurrence of key `k` appends that
/// occurrence's records to `k`'s single report entry: nothing is dropped
/// and no second key appears.
pub proof fn lemma_duplicate_concat(
    k: Seq<char>,
    patterns: Seq<Seq<char>>,
    case_insensitive: bool,
    multiline: bool,
    unicode: bool,
    text: Seq<char>,
)
    ensures
        entry_matches(k, patterns.push(k), case_insensitive, multiline, unicode, text)
            == entry_matches(k, patterns, case_insensitive, multiline, unicode, text)
            + found_matches(k, case_insensitive, multiline, unicode, text),
        first_seen(patterns.push(k)) == if first_seen(patterns).contains(k) {
            first_seen(patterns)
        } else {
            first_seen(patterns).push(k)
        },
{
    assert(patterns.push(k).drop_last() =~= patterns);
    assert(patterns.push(k).last() == k);
    assert(count_occ(patterns.push(k), k) == count_occ(patterns, k) + 1);
}

/// Compiles all patterns, extracts every pattern's matches from the text in
/// parallel, and merges the results into one report keyed by pattern text.
///
/// On success the report has exactly one entry per distinct pattern, in
/// first-seen order, and each entry's match sequence is the concatenation
/// of the records of every occurrence of that pattern. On an ASCII text
/// every record's offsets span exactly its value inside the text. A run
/// with any rejected pattern fails with that pattern's name instead.
pub fn match_multiregex(regex_set: &[String], string: &str, flags: FlagArgs) -> (r: Result<
    RegexMap,
    PatternError,
>)
    requires
        string.spec_bytes().len() <= 0x7fff_ffff,
    ensures
        match r {
            Ok(m) => {
                &&& m.wf()
                &&& m.key_seq() == first_seen(str_views(regex_set@))
                &&& forall|j: int|
                    0 <= j < m.matches@.len() ==> (#[trigger] m.matches@[j])@.lines
                        == entry_matches(
                        m.key_seq()[j],
                        str_views(regex_set@),
                        flags.case_insensitive,
                        flags.multiline,
                        flags.unicode,
                        string@,
                    )
                &&& string.is_ascii() ==> forall|j: int, l: int|
                    0 <= j < m.matches@.len() && 0 <= l < m.matches@[j]@.lines.len()
                        ==> rec_valid_for(#[trigger] m.matches@[j]@.lines[l], string@)
                &&& forall|i: int|
                    0 <= i < regex_set@.len() ==> pattern_ok(
                        #[trigger] regex_set@[i]@,
                        flags.case_insensitive,
                        flags.multiline,
                        flags.unicode,
                    )
            },
            Err(e) => exists|i: int|
                {
                    &&& 0 <= i < regex_set@.len()
                    &&& e.pattern@ == #[trigger] regex_set@[i]@
                    &&& !pattern_ok(
                        regex_set@[i]@,
                        flags.case_insensitive,
                        flags.multiline,
                        flags.unicode,
                    )
                    &&& forall|j: int|
                        0 <= j < i ==> pattern_ok(
                            #[trigger] regex_set@[j]@,
                            flags.case_insensitive,
                            flags.multiline,
                            flags.unicode,
                        )
                },
        },
{
    let ghost keys = str_views(regex_set@);
    let n: usize = regex_set.len();

    let mut owned: Vec<String> = Vec::new();
    let mut c: usize = 0;
    while c < n
        invariant
            n == regex_set@.len(),
            0 <= c <= n,
            owned@.len() == c,
            forall|j: int| 0 <= j < c ==> (#[trigger] owned@[j])@ == regex_set@[j]@,
        decreases n - c,
    {
        let s: &String = &regex_set[c];
        owned.push(s.clone());
        c = c + 1;
    }

    let compiled = match build_regex(owned, &flags) {
        Ok(ps) => ps,
        Err(e) => {
            proof {
                let i = choose|i: int|
                    {
                        &&& 0 <= i < owned@.len()
                        &&& e.pattern@ == #[trigger] owned@[i]@
                        &&& !pattern_ok(
                            owned@[i]@,
                            flags.case_insensitive,
                            flags.multiline,
                            flags.unicode,
                        )
                        &&& forall|j: int|
                            0 <= j < i ==> pattern_ok(
                                #[trigger] owned@[j]@,
                                flags.case_insensitive,
                                flags.multiline,
                                flags.unicode,
                            )
                    };
                assert(owned@[i]@ == regex_set@[i]@);
                assert(forall|j: int| 0 <= j < i ==> owned@[j]@ == #[trigger] regex_set@[j]@);
                assert(0 <= i < regex_set@.len() && e.pattern@ == regex_set@[i]@ && !pattern_ok(
                    regex_set@[i]@,
                    flags.case_insensitive,
                    flags.multiline,
                    flags.unicode,
                ));
            }
            return Err(e);
        },
    };

    let mut final_map = RegexMap::new(regex_set);
    let mut results: Vec<Vec<SearchResult>> = par_extract(&compiled, string);

    proof {
        assert(final_map.key_seq() == first_seen(keys));
        assert forall|l: int| 0 <= l < results@.len() implies recs_view(results@[l]@)
            == found_matches(
            keys[l],
            flags.case_insensitive,
            flags.multiline,
            flags.unicode,
            string@,
        ) by {
            assert(compiled@[l].pattern@ == owned@[l]@);
            assert(owned@[l]@ == regex_set@[l]@);
            assert(compiled@[l].flags == flags);
            assert(recs_view(results@[l]@) == found_matches(
                compiled@[l].pattern@,
                compiled@[l].flags.case_insensitive,
                compiled@[l].flags.multiline,
                compiled@[l].flags.unicode,
                string@,
            ));
        }
        assert forall|j: int| 0 <= j < compiled@.len() implies (
        #[trigger] compiled@[j]).pattern@ == keys[j] && compiled@[j].flags == flags
            && compiled@[j].wf() by {
            assert(compiled@[j].pattern@ == owned@[j]@);
            assert(owned@[j]@ == regex_set@[j]@);
        }
    }

    let mut i: usize = 0;
    while i < n
        invariant
            n == regex_set@.len(),
            0 <= i <= n,
            keys == str_views(regex_set@),
            compiled@.len() == n,
            forall|j: int|
                0 <= j < n ==> (#[trigger] compiled@[j]).pattern@ == keys[j] && compiled@[j].flags
                    == flags && compiled@[j].wf(),
            results@.len() == n - i,
            forall|l: int|
                0 <= l < results@.len() ==> recs_view(results@[l]@) == found_matches(
                    keys[i + l],
                    flags.case_insensitive,
                    flags.multiline,
                    flags.unicode,
                    string@,
                ),
            forall|l: int, t: int|
                0 <= l < results@.len() && 0 <= t < results@[l]@.len() ==> rec_wf(
                    #[trigger] results@[l]@[t]@,
                ),
            string.is_ascii() ==> forall|l: int, t: int|
                0 <= l < results@.len() && 0 <= t < results@[l]@.len() ==> rec_valid_for(
                    #[trigger] results@[l]@[t]@,
                    string@,
                ),
            final_map.wf(),
            final_map.key_seq() == first_seen(keys),
            forall|j: int|
                0 <= j < final_map.matches@.len() ==> (#[trigger] final_map.matches@[j])@.lines
                    == entry_matches(
                    final_map.key_seq()[j],
                    keys.take(i as int),
                    flags.case_insensitive,
                    flags.multiline,
                    flags.unicode,
                    string@,
                ),
            string.is_ascii() ==> forall|j: int, l: int|
                0 <= j < final_map.matches@.len() && 0 <= l < final_map.matches@[j]@.lines.len()
                    ==> rec_valid_for(#[trigger] final_map.matches@[j]@.lines[l], string@),
        decreases n - i,
    {
        let ghost old_map = final_map;
        let ghost old_results = results@;
        let items: Vec<SearchResult> = results.remove(0);
        proof {
            assert(results@ =~= old_results.drop_first());
            assert(recs_view(items@) == found_matches(
                keys[i as int],
                flags.case_insensitive,
                flags.multiline,
                flags.unicode,
                string@,
            ));
        }
        let pat: &String = &compiled[i].pattern;
        let idx: usize = match final_map.find_key(pat) {
            Some(x) => x,
            None => {
                proof {
                    lemma_first_seen_complete(keys);
                    assert(keys[i as int] == pat@);
                    assert(keys.contains(pat@));
                    assert(first_seen(keys).contains(pat@));
                    let j = choose|j: int|
                        0 <= j < first_seen(keys).len() && first_seen(keys)[j] == pat@;
                    assert(final_map.key_seq()[j] == pat@);
                    assert(final_map.matches@[j].regex@ == pat@);
                    assert(false);
                }
                unreached()
            },
        };
        final_map.record_at(idx, items);
        proof {
            assert(keys.take(i + 1).drop_last() =~= keys.take(i as int));
            assert(keys.take(i + 1).last() == keys[i as int]);
            let found = found_matches(
                keys[i as int],
                flags.case_insensitive,
                flags.multiline,
                flags.unicode,
                string@,
            );
            assert forall|j: int| 0 <= j < final_map.matches@.len() implies (
            #[trigger] final_map.matches@[j])@.lines == entry_matches(
                final_map.key_seq()[j],
                keys.take(i + 1),
                flags.case_insensitive,
                flags.multiline,
                flags.unicode,
                string@,
            ) by {
                let kj = final_map.key_seq()[j];
                assert(count_occ(keys.take(i + 1), kj) == count_occ(keys.take(i as int), kj)
                    + if keys[i as int] == kj {
                    1nat
                } else {
                    0nat
                });
                if j == idx {
                    assert(kj == keys[i as int]);
                    assert(final_map.matches@[j]@.lines == old_map.matches@[j]@.lines
                        + recs_view(items@));
                    assert(repeat_recs(found, count_occ(keys.take(i as int), kj) + 1)
                        == repeat_recs(found, count_occ(keys.take(i as int), kj)) + found);
                } else {
                    assert(final_map.matches@[j] == old_map.matches@[j]);
                    assert(kj != keys[i as int]);
                }
            }
        }
        i = i + 1;
    }
    proof {
        assert(keys.take(n as int) =~= keys);
        assert forall|i2: int| 0 <= i2 < regex_set@.len() implies pattern_ok(
            #[trigger] regex_set@[i2]@,
            flags.case_insensitive,
            flags.multiline,
            flags.unicode,
        ) by {
            assert(compiled@[i2].wf());
            assert(compiled@[i2].pattern@ == keys[i2]);
        }
    }
    Ok(final_map)
}

} // verus!
