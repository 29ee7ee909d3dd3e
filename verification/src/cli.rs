use vstd::prelude::*;

verus! {

/// Matching-mode toggles applied identically to every pattern in a run.
///
/// The `u` token *disables* unicode mode (its absence leaves unicode mode
/// enabled). This inverted default is deliberate, long-standing behaviour
/// that callers depend on; do not "fix" it.
#[derive(Debug, Clone, Copy, PartialEq, Eq, Structural)]
pub struct FlagArgs {
    pub multiline: bool,
    pub case_insensitive: bool,
    pub unicode: bool,
}

impl Default for FlagArgs {
    fn default() -> (r: Self)
        ensures
            !r.multiline,
            !r.case_insensitive,
            !r.unicode,
    {
        FlagArgs { multiline: false, case_insensitive: false, unicode: false }
    }
}

/// One run's worth of caller-supplied configuration: where the text and the
/// patterns come from, the matching flags, and how to render the report.
#[derive(Debug, Clone)]
pub struct Args {
    /// Input text file.
    pub input: String,
    /// Output text file, `None` for stdout.
    pub output: Option<String>,
    /// File containing each pattern on its own line, or an inline
    /// `::`-separated pattern list.
    pub regex_file: String,
    /// Matching-mode toggles for the whole run.
    pub flags: FlagArgs,
    /// Whether to indent the rendered report.
    pub pretty: bool,
}

pub open spec fn is_flag_char(c: char) -> bool {
    c == 'i' || c == 'm' || c == 'u'
}

/// A well-formed flag string is a `|`-separated list of tokens, each one of
/// `i`, `m`, `u`. Every token is a single character, so such a string is
/// exactly an alternation of flag characters (even positions) and `|` bars
/// (odd positions), of odd length. The empty string is not well-formed: it
/// splits into one empty token, which names no flag.
pub open spec fn valid_flag_str(s: Seq<char>) -> bool {
    &&& s.len() % 2 == 1
    &&& forall|i: int| 0 <= i < s.len() && i % 2 == 0 ==> is_flag_char(#[trigger] s[i])
    &&& forall|i: int| 0 <= i < s.len() && i % 2 == 1 ==> #[trigger] s[i] == '|'
}

proof fn lemma_contains_push(s: Seq<char>, x: char, c: char)
    ensures
        s.push(x).contains(c) <==> (s.contains(c) || x == c),
{
    if x == c {
        assert(s.push(x)[s.len() as int] == c);
    }
    if s.contains(c) {
        let j = choose|j: int| 0 <= j < s.len() && s[j] == c;
        assert(s.push(x)[j] == c);
    }
    if s.push(x).contains(c) {
        let j = choose|j: int| 0 <= j < s.push(x).len() && s.push(x)[j] == c;
        if j < s.len() {
            assert(s[j] == c);
        }
    }
}

impl Args {
    /// Reads a flag string such as `"i|m"` into the run's configuration.
    /// Each `i`, `m` enables its mode; `u` disables unicode mode (see
    /// [`FlagArgs`]). A string that is not a `|`-separated list of such
    /// tokens is rejected by every caller beforehand (the historical
    /// behaviour on such input was a panic); use [`Args::flags_valid`].
    pub fn parse_flags(selected: &str) -> (r: FlagArgs)
        requires
            valid_flag_str(selected@),
        ensures
            r.case_insensitive == selected@.contains('i'),
            r.multiline == selected@.contains('m'),
            r.unicode == !selected@.contains('u'),
    {
        let n: usize = selected.unicode_len();
        let mut flags = FlagArgs { multiline: false, case_insensitive: false, unicode: true };
        let mut i: usize = 0;
        while i < n
            invariant
                n == selected@.len(),
                0 <= i <= n,
                flags.case_insensitive == selected@.take(i as int).contains('i'),
                flags.multiline == selected@.take(i as int).contains('m'),
                flags.unicode == !selected@.take(i as int).contains('u'),
            decreases n - i,
        {
            let c = selected.get_char(i);
            proof {
                assert(selected@.take(i + 1) =~= selected@.take(i as int).push(selected@[i as int]));
                lemma_contains_push(selected@.take(i as int), selected@[i as int], 'i');
                lemma_contains_push(selected@.take(i as int), selected@[i as int], 'm');
                lemma_contains_push(selected@.take(i as int), selected@[i as int], 'u');
            }
            if c == 'i' {
                flags.case_insensitive = true;
            } else if c == 'm' {
                flags.multiline = true;
            } else if c == 'u' {
                flags.unicode = false;
            }
            i = i + 1;
        }
        proof {
            assert(selected@.take(n as int) =~= selected@);
        }
        flags
    }

    /// Decides whether [`Args::parse_flags`] accepts `selected`: a
    /// `|`-separated list of `i`, `m`, `u` tokens.
    pub fn flags_valid(selected: &str) -> (b: bool)
        ensures
            b == valid_flag_str(selected@),
    {
        let n: usize = selected.unicode_len();
        if n % 2 != 1 {
            return false;
        }
        let mut i: usize = 0;
        while i < n
            invariant
                n == selected@.len(),
                n % 2 == 1,
                0 <= i <= n,
                forall|j: int| 0 <= j < i && j % 2 == 0 ==> is_flag_char(#[trigger] selected@[j]),
                forall|j: int| 0 <= j < i && j % 2 == 1 ==> #[trigger] selected@[j] == '|',
            decreases n - i,
        {
            let c = selected.get_char(i);
            if i % 2 == 0 {
                if !(c == 'i' || c == 'm' || c == 'u') {
                    return false;
                }
            } else {
                if c != '|' {
                    return false;
                }
            }
            i = i + 1;
        }
        true
    }
}

} // verus!
