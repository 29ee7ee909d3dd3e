use vstd::prelude::*;

verus! {

use vstd::string::StrSliceExecFns;
use vstd::string::StringExecFns;
use crate::match_structs::{RecView, EntryView, rec_wf, RegexMap};

/// The lower-case hexadecimal digit for `d`.
pub open spec fn hex_char(d: int) -> char {
    if d == 0 {
        '0'
    } else if d == 1 {
        '1'
    } else if d == 2 {
        '2'
    } else if d == 3 {
        '3'
    } else if d == 4 {
        '4'
    } else if d == 5 {
        '5'
    } else if d == 6 {
        '6'
    } else if d == 7 {
        '7'
    } else if d == 8 {
        '8'
    } else if d == 9 {
        '9'
    } else if d == 10 {
        'a'
    } else if d == 11 {
        'b'
    } else if d == 12 {
        'c'
    } else if d == 13 {
        'd'
    } else if d == 14 {
        'e'
    } else {
        'f'
    }
}

/// How one character is written inside a JSON string literal: quote and
/// backslash escaped, the named control escapes for backspace, tab, line
/// feed, form feed and carriage return, `\u00XX` for the other control
/// characters, and every other character written as itself.
pub open spec fn escape_char(c: char) -> Seq<char> {
    if c == '"' {
        seq!['\\', '"']
    } else if c == '\\' {
        seq!['\\', '\\']
    } else if c == '\u{8}' {
        seq!['\\', 'b']
    } else if c == '\t' {
        seq!['\\', 't']
    } else if c == '\n' {
        seq!['\\', 'n']
    } else if c == '\u{c}' {
        seq!['\\', 'f']
    } else if c == '\r' {
        seq!['\\', 'r']
    } else if (c as u32) < 32 {
        seq!['\\', 'u', '0', '0', hex_char((c as u32) as int / 16), hex_char((c as u32) as int % 16)]
    } else {
        seq![c]
    }
}

/// The body of a JSON string literal holding `s`.
pub open spec fn escape_str(s: Seq<char>) -> Seq<char>
    decreases s.len(),
{
    if s.len() == 0 {
        Seq::empty()
    } else {
        escape_str(s.drop_last()) + escape_char(s.last())
    }
}

/// The decimal digit for `d`.
pub open spec fn digit_char(d: int) -> char {
    if d == 0 {
        '0'
    } else if d == 1 {
        '1'
    } else if d == 2 {
        '2'
    } else if d == 3 {
        '3'
    } else if d == 4 {
        '4'
    } else if d == 5 {
        '5'
    } else if d == 6 {
        '6'
    } else if d == 7 {
        '7'
    } else if d == 8 {
        '8'
    } else {
        '9'
    }
}

/// The decimal rendering of `n`, most significant digit first, no sign and
/// no leading zero (`0` itself excepted).
pub open spec fn dec_str(n: nat) -> Seq<char>
    decreases n,
{
    if n < 10 {
        seq![digit_char(n as int)]
    } else {
        dec_str(n / 10) + seq![digit_char((n % 10) as int)]
    }
}

/// One record as a compact JSON object `{"value":…,"start":…,"end":…}`.
pub open spec fn rec_json(r: RecView) -> Seq<char> {
    "{\"value\":\""@ + escape_str(r.value) + "\",\"start\":"@ + dec_str(r.start as nat)
        + ",\"end\":"@ + dec_str(r.end as nat) + "}"@
}

/// One record as an indented JSON object, laid out for a report where
/// records sit four levels deep.
pub open spec fn rec_pretty(r: RecView) -> Seq<char> {
    "{\n          \"value\": \""@ + escape_str(r.value) + "\",\n          \"start\": "@ + dec_str(
        r.start as nat,
    ) + ",\n          \"end\": "@ + dec_str(r.end as nat) + "\n        }"@
}

/// `parts` joined by `sep`.
pub open spec fn join_items(parts: Seq<Seq<char>>, sep: Seq<char>) -> Seq<char>
    decreases parts.len(),
{
    if parts.len() == 0 {
        Seq::empty()
    } else if parts.len() == 1 {
        parts[0]
    } else {
        join_items(parts.drop_last(), sep) + sep + parts.last()
    }
}

/// Each record rendered on its own, compact or indented.
pub open spec fn rec_parts(rs: Seq<RecView>, pretty: bool) -> Seq<Seq<char>> {
    Seq::new(
        rs.len(),
        |i: int|
            if pretty {
                rec_pretty(rs[i])
            } else {
                rec_json(rs[i])
            },
    )
}

/// A record sequence as a compact JSON array.
pub open spec fn recs_json(rs: Seq<RecView>) -> Seq<char> {
    if rs.len() == 0 {
        "[]"@
    } else {
        "["@ + join_items(rec_parts(rs, false), ","@) + "]"@
    }
}

/// A record sequence as an indented JSON array; an empty one stays inline.
pub open spec fn recs_pretty(rs: Seq<RecView>) -> Seq<char> {
    if rs.len() == 0 {
        "[]"@
    } else {
        "[\n        "@ + join_items(rec_parts(rs, true), ",\n        "@) + "\n      ]"@
    }
}

/// One report entry as a compact JSON member `"key":{"regex":…,"lines":…}`.
/// The member key and the `regex` field carry the same pattern text.
pub open spec fn entry_json(e: EntryView) -> Seq<char> {
    "\""@ + escape_str(e.regex) + "\":{\"regex\":\""@ + escape_str(e.regex) + "\",\"lines\":"@
        + recs_json(e.lines) + "}"@
}

/// One report entry as an indented JSON member.
pub open spec fn entry_pretty(e: EntryView) -> Seq<char> {
    "\""@ + escape_str(e.regex) + "\": {\n      \"regex\": \""@ + escape_str(e.regex)
        + "\",\n      \"lines\": "@ + recs_pretty(e.lines) + "\n    }"@
}

/// Each entry rendered on its own, compact or indented.
pub open spec fn entry_parts(es: Seq<EntryView>, pretty: bool) -> Seq<Seq<char>> {
    Seq::new(
        es.len(),
        |i: int|
            if pretty {
                entry_pretty(es[i])
            } else {
                entry_json(es[i])
            },
    )
}

/// The whole report as one compact JSON document: a single `matches`
/// member mapping each pattern to its entry, in report order.
pub open spec fn report_compact(es: Seq<EntryView>) -> Seq<char> {
    "{\"matches\":{"@ + join_items(entry_parts(es, false), ","@) + "}}"@
}

/// The whole report as one indented JSON document.
pub open spec fn report_pretty(es: Seq<EntryView>) -> Seq<char> {
    if es.len() == 0 {
        "{\n  \"matches\": {}\n}"@
    } else {
        "{\n  \"matches\": {\n    "@ + join_items(entry_parts(es, true), ",\n    "@) + "\n  }\n}"@
    }
}

/// The report document in the requested mode.
pub open spec fn report_json(es: Seq<EntryView>, pretty: bool) -> Seq<char> {
    if pretty {
        report_pretty(es)
    } else {
        report_compact(es)
    }
}

proof fn lemma_dec_str_len(n: nat)
    ensures
        n < 10 ==> dec_str(n).len() == 1,
        n >= 10 ==> dec_str(n).len() >= 2,
    decreases n,
{
    if n >= 10 {
        lemma_dec_str_len(n / 10);
    }
}

/// Two offsets render to the same digit string only if they are the same
/// number: reading a rendered offset back cannot confuse two reports that
/// differ in an offset.
pub proof fn lemma_dec_str_injective(a: nat, b: nat)
    requires
        dec_str(a) == dec_str(b),
    ensures
        a == b,
    decreases a,
{
    lemma_dec_str_len(a);
    lemma_dec_str_len(b);
    if a < 10 && b < 10 {
        assert(dec_str(a)[0] == digit_char(a as int));
        assert(dec_str(b)[0] == digit_char(b as int));
    } else if a >= 10 && b >= 10 {
        assert(dec_str(a).last() == digit_char((a % 10) as int));
        assert(dec_str(b).last() == digit_char((b % 10) as int));
        assert(a % 10 == b % 10);
        assert(dec_str(a).drop_last() =~= dec_str(a / 10));
        assert(dec_str(b).drop_last() =~= dec_str(b / 10));
        lemma_dec_str_injective(a / 10, b / 10);
    }
}

/// Escaping never erases text: the escaped body is empty exactly for the
/// empty string, so an empty rendered value reads back as an empty value.
pub proof fn lemma_escape_str_empty(s: Seq<char>)
    ensures
        escape_str(s).len() == 0 <==> s.len() == 0,
        escape_str(s).len() >= s.len(),
    decreases s.len(),
{
    if s.len() > 0 {
        lemma_escape_str_empty(s.drop_last());
        assert(escape_char(s.last()).len() >= 1);
    }
}

fn append_hex_digit(out: &mut String, d: u8)
    requires
        d < 16,
    ensures
        final(out)@ == old(out)@ + seq![hex_char(d as int)],
{
    let table = "0123456789abcdef";
    proof {
        reveal_strlit("0123456789abcdef");
    }
    let piece = table.substring_char(d as usize, d as usize + 1);
    proof {
        assert(piece@ =~= seq![hex_char(d as int)]);
    }
    out.append(piece);
}

fn append_dec(out: &mut String, n: u32)
    ensures
        final(out)@ == old(out)@ + dec_str(n as nat),
    decreases n,
{
    if n >= 10 {
        append_dec(out, n / 10);
    }
    let d: usize = (n % 10) as usize;
    let table = "0123456789";
    proof {
        reveal_strlit("0123456789");
    }
    let piece = table.substring_char(d, d + 1);
    proof {
        assert(piece@ =~= seq![digit_char(d as int)]);
    }
    out.append(piece);
    proof {
        if n >= 10 {
            assert(final(out)@ =~= old(out)@ + dec_str(n as nat));
        } else {
            assert(final(out)@ =~= old(out)@ + dec_str(n as nat));
        }
    }
}

fn append_escaped(out: &mut String, s: &str)
    ensures
        final(out)@ == old(out)@ + escape_str(s@),
{
    let n: usize = s.unicode_len();
    let mut i: usize = 0;
    while i < n
        invariant
            n == s@.len(),
            0 <= i <= n,
            out@ == old(out)@ + escape_str(s@.take(i as int)),
        decreases n - i,
    {
        let c = s.get_char(i);
        proof {
            assert(s@.take(i + 1).drop_last() =~= s@.take(i as int));
            assert(s@.take(i + 1).last() == s@[i as int]);
        }
        let ghost before = out@;
        if c == '"' {
            out.append("\\\"");
            proof {
                reveal_strlit("\\\"");
                assert(out@ =~= before + escape_char(c));
            }
        } else if c == '\\' {
            out.append("\\\\");
            proof {
                reveal_strlit("\\\\");
                assert(out@ =~= before + escape_char(c));
            }
        } else if c == '\u{8}' {
            out.append("\\b");
            proof {
                reveal_strlit("\\b");
                assert(out@ =~= before + escape_char(c));
            }
        } else if c == '\t' {
            out.append("\\t");
            proof {
                reveal_strlit("\\t");
                assert(out@ =~= before + escape_char(c));
            }
        } else if c == '\n' {
            out.append("\\n");
            proof {
                reveal_strlit("\\n");
                assert(out@ =~= before + escape_char(c));
            }
        } else if c == '\u{c}' {
            out.append("\\f");
            proof {
                reveal_strlit("\\f");
                assert(out@ =~= before + escape_char(c));
            }
        } else if c == '\r' {
            out.append("\\r");
            proof {
                reveal_strlit("\\r");
                assert(out@ =~= before + escape_char(c));
            }
        } else if (c as u32) < 32 {
            out.append("\\u00");
            append_hex_digit(out, ((c as u32) / 16) as u8);
            append_hex_digit(out, ((c as u32) % 16) as u8);
            proof {
                reveal_strlit("\\u00");
                assert(out@ =~= before + escape_char(c));
            }
        } else {
            let piece = s.substring_char(i, i + 1);
            proof {
                assert(piece@ =~= seq![s@[i as int]]);
            }
            out.append(piece);
            proof {
                assert(out@ =~= before + escape_char(c));
            }
        }
        proof {
            assert(out@ =~= old(out)@ + escape_str(s@.take(i + 1)));
        }
        i = i + 1;
    }
    proof {
        assert(s@.take(n as int) =~= s@);
    }
}

fn append_rec(out: &mut String, rec: &crate::match_structs::SearchResult, pretty: bool)
    requires
        rec_wf(rec@),
    ensures
        final(out)@ == old(out)@ + if pretty {
            rec_pretty(rec@)
        } else {
            rec_json(rec@)
        },
{
    if pretty {
        out.append("{\n          \"value\": \"");
        append_escaped(out, rec.value.as_str());
        out.append("\",\n          \"start\": ");
        append_dec(out, rec.start as u32);
        out.append(",\n          \"end\": ");
        append_dec(out, rec.end as u32);
        out.append("\n        }");
        proof {
            assert(final(out)@ =~= old(out)@ + rec_pretty(rec@));
        }
    } else {
        out.append("{\"value\":\"");
        append_escaped(out, rec.value.as_str());
        out.append("\",\"start\":");
        append_dec(out, rec.start as u32);
        out.append(",\"end\":");
        append_dec(out, rec.end as u32);
        out.append("}");
        proof {
            assert(final(out)@ =~= old(out)@ + rec_json(rec@));
        }
    }
}

fn append_recs(out: &mut String, lines: &Vec<crate::match_structs::SearchResult>, pretty: bool)
    requires
        forall|l: int| 0 <= l < lines@.len() ==> rec_wf(#[trigger] lines@[l]@),
    ensures
        final(out)@ == old(out)@ + if pretty {
            recs_pretty(crate::match_structs::recs_view(lines@))
        } else {
            recs_json(crate::match_structs::recs_view(lines@))
        },
{
    let ghost rs = crate::match_structs::recs_view(lines@);
    let n: usize = lines.len();
    if n == 0 {
        out.append("[]");
        proof {
            assert(final(out)@ =~= old(out)@ + recs_pretty(rs));
            assert(final(out)@ =~= old(out)@ + recs_json(rs));
        }
        return ;
    }
    let ghost parts = rec_parts(rs, pretty);
    let ghost sep: Seq<char> = if pretty {
        ",\n        "@
    } else {
        ","@
    };
    if pretty {
        out.append("[\n        ");
    } else {
        out.append("[");
    }
    let ghost head = out@;
    let mut l: usize = 0;
    while l < n
        invariant
            n == lines@.len(),
            n == rs.len(),
            rs == crate::match_structs::recs_view(lines@),
            parts == rec_parts(rs, pretty),
            sep == if pretty {
                ",\n        "@
            } else {
                ","@
            },
            0 < n,
            0 <= l <= n,
            forall|t: int| 0 <= t < lines@.len() ==> rec_wf(#[trigger] lines@[t]@),
            out@ == head + join_items(parts.take(l as int), sep),
        decreases n - l,
    {
        if l > 0 {
            if pretty {
                out.append(",\n        ");
            } else {
                out.append(",");
            }
        }
        append_rec(out, &lines[l], pretty);
        proof {
            assert(parts.take(l + 1).drop_last() =~= parts.take(l as int));
            assert(parts.take(l + 1).last() == parts[l as int]);
            assert(parts[l as int] == if pretty {
                rec_pretty(rs[l as int])
            } else {
                rec_json(rs[l as int])
            });
            assert(rs[l as int] == lines@[l as int]@);
            assert(out@ =~= head + join_items(parts.take(l + 1), sep));
        }
        l = l + 1;
    }
    if pretty {
        out.append("\n      ]");
    } else {
        out.append("]");
    }
    proof {
        assert(parts.take(n as int) =~= parts);
        if pretty {
            assert(final(out)@ =~= old(out)@ + recs_pretty(rs));
        } else {
            assert(final(out)@ =~= old(out)@ + recs_json(rs));
        }
    }
}

fn append_entry(out: &mut String, e: &crate::match_structs::ResultObject, pretty: bool)
    requires
        forall|l: int| 0 <= l < e.lines@.len() ==> rec_wf(#[trigger] e.lines@[l]@),
    ensures
        final(out)@ == old(out)@ + if pretty {
            entry_pretty(e@)
        } else {
            entry_json(e@)
        },
{
    if pretty {
        out.append("\"");
        append_escaped(out, e.regex.as_str());
        out.append("\": {\n      \"regex\": \"");
        append_escaped(out, e.regex.as_str());
        out.append("\",\n      \"lines\": ");
        append_recs(out, &e.lines, true);
        out.append("\n    }");
        proof {
            assert(final(out)@ =~= old(out)@ + entry_pretty(e@));
        }
    } else {
        out.append("\"");
        append_escaped(out, e.regex.as_str());
        out.append("\":{\"regex\":\"");
        append_escaped(out, e.regex.as_str());
        out.append("\",\"lines\":");
        append_recs(out, &e.lines, false);
        out.append("}");
        proof {
            assert(final(out)@ =~= old(out)@ + entry_json(e@));
        }
    }
}

impl RegexMap {
    /// Renders the report as one JSON document: a single `matches` member
    /// mapping each pattern, in report order, to `{regex, lines}`.
    /// `pretty` selects the indented layout; otherwise the document is a
    /// single line without insignificant whitespace.
    pub fn to_json(&self, pretty: bool) -> (r: String)
        requires
            self.spans_wf(),
        ensures
            r@ == report_json(self.entries(), pretty),
    {
        let ghost es = self.entries();
        let ghost parts = entry_parts(es, pretty);
        let ghost sep: Seq<char> = if pretty {
            ",\n    "@
        } else {
            ","@
        };
        let mut out = String::new();
        let n: usize = self.matches.len();
        if pretty && n == 0 {
            out.append("{\n  \"matches\": {}\n}");
            proof {
                assert(out@ =~= report_json(es, pretty));
            }
            return out;
        }
        if pretty {
            out.append("{\n  \"matches\": {\n    ");
        } else {
            out.append("{\"matches\":{");
        }
        let ghost head = out@;
        let mut i: usize = 0;
        while i < n
            invariant
                n == self.matches@.len(),
                n == es.len(),
                es == self.entries(),
                parts == entry_parts(es, pretty),
                sep == if pretty {
                    ",\n    "@
                } else {
                    ","@
                },
                self.spans_wf(),
                0 <= i <= n,
                out@ == head + join_items(parts.take(i as int), sep),
            decreases n - i,
        {
            if i > 0 {
                if pretty {
                    out.append(",\n    ");
                } else {
                    out.append(",");
                }
            }
            proof {
                assert forall|l: int|
                    0 <= l < self.matches@[i as int].lines@.len() implies rec_wf(
                    #[trigger] self.matches@[i as int].lines@[l]@,
                ) by {
                    assert(self.matches@[i as int]@.lines[l] == self.matches@[
                        i as int
                    ].lines@[l]@);
                    assert(rec_wf(self.matches@[i as int]@.lines[l]));
                }
            }
            append_entry(&mut out, &self.matches[i], pretty);
            proof {
                assert(parts.take(i + 1).drop_last() =~= parts.take(i as int));
                assert(parts.take(i + 1).last() == parts[i as int]);
                assert(es[i as int] == self.matches@[i as int]@);
                assert(out@ =~= head + join_items(parts.take(i + 1), sep));
            }
            i = i + 1;
        }
        if pretty {
            out.append("\n  }\n}");
        } else {
            out.append("}}");
        }
        proof {
            assert(parts.take(n as int) =~= parts);
            if pretty {
                assert(out@ =~= report_pretty(es));
            } else {
                assert(out@ =~= report_compact(es));
            }
        }
        out
    }
}

} // verus!
