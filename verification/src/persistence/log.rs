//! Tier-2 boot log: an append-only, line-delimited history on the ESP. Each
//! record is one self-describing text line, so the log survives partial
//! writes and can be exported.
use vstd::prelude::*;
use vstd::utf8::{valid_utf8, decode_utf8, encode_utf8};
use crate::graph::ids::EntryId;
use crate::graph::health::BootResult;
use crate::ports::{FileStore, IoResult};
use crate::text::{dec, push_dec, extend_str, string_of, chars_of, str_from_utf8, find_char,
    find_char_exec, lemma_find_char_props, lemma_find_char_at, slice_of, lines, lines_chars, views,
    split_on, strip_cr, parse_unsigned, parse_unsigned_exec, lemma_dec_digits, all_digits,
    digits_value, is_digit, lemma_split_nonempty};

verus! {

/// Where the boot log lives on the ESP.
pub const LOG_PATH: &'static str = "\\EFI\\MyBoot\\log\\boot.log";

/// One boot-history record. `seq` is a monotonically increasing counter kept
/// by the caller; `phase` a short stage tag; `result` the outcome if known.
#[derive(Clone, Debug, PartialEq, Eq)]
pub struct LogRecord {
    pub seq: u64,
    pub entry: EntryId,
    pub phase: &'static str,
    pub result: Option<BootResult>,
}

/// The word a result is logged as.
pub open spec fn result_word(r: Option<BootResult>) -> Seq<char> {
    match r {
        Some(BootResult::Confirmed) => "confirmed"@,
        Some(BootResult::Failed) => "failed"@,
        _ => "-"@,
    }
}

/// One log line without its line ending: `seq<TAB>entry<TAB>phase<TAB>result`.
pub open spec fn record_line(seq: u64, entry: Seq<char>, phase: Seq<char>, r: Option<BootResult>) -> Seq<char> {
    dec(seq as nat) + seq!['\t'] + entry + seq!['\t'] + phase + seq!['\t'] + result_word(r)
}

/// One rendered record: its line and a `\n`.
pub open spec fn render_text(seq: u64, entry: Seq<char>, phase: Seq<char>, r: Option<BootResult>) -> Seq<char> {
    record_line(seq, entry, phase, r) + seq!['\n']
}

impl LogRecord {
    /// Render one line: `seq<TAB>entry<TAB>phase<TAB>result\n`.
    pub fn render(&self) -> (r: String)
        ensures
            r@ == render_text(self.seq, self.entry@, self.phase@, self.result),
    {
        proof {
            reveal_strlit("confirmed");
            reveal_strlit("failed");
            reveal_strlit("-");
        }
        let mut s: Vec<char> = Vec::new();
        push_dec(&mut s, self.seq);
        s.push('\t');
        extend_str(&mut s, self.entry.as_str());
        s.push('\t');
        extend_str(&mut s, self.phase);
        s.push('\t');
        let w = match self.result {
            Some(BootResult::Confirmed) => "confirmed",
            Some(BootResult::Failed) => "failed",
            _ => "-",
        };
        extend_str(&mut s, w);
        s.push('\n');
        assert(s@ =~= render_text(self.seq, self.entry@, self.phase@, self.result));
        string_of(&s)
    }
}

/// Append a record to the log (creating the file if absent): the file grows
/// by the UTF-8 bytes of the rendered line.
pub fn append_record<F: FileStore>(fs: &mut F, rec: &LogRecord) -> (r: IoResult<()>)
    ensures
        old(fs).modelled() ==> (r is Ok ==> final(fs).files() == old(fs).files().insert(
                LOG_PATH@,
                (if old(fs).files().contains_key(LOG_PATH@) {
                    old(fs).files()[LOG_PATH@]
                } else {
                    Seq::<u8>::empty()
                }) + encode_utf8(render_text(rec.seq, rec.entry@, rec.phase@, rec.result)),
            )),
        old(fs).modelled() ==> (r is Err ==> final(fs).files() == old(fs).files()),
        old(fs).never_fails() ==> r is Ok,
{
    let line = rec.render();
    fs.append(LOG_PATH, line.as_str().as_bytes())
}

/// `splitn(4, '\t')` when it yields four pieces.
pub open spec fn split4(l: Seq<char>) -> Option<(Seq<char>, Seq<char>, Seq<char>, Seq<char>)> {
    match find_char(l, '\t') {
        None => None,
        Some(a) => {
            let r1 = l.skip(a + 1);
            match find_char(r1, '\t') {
                None => None,
                Some(b) => {
                    let r2 = r1.skip(b + 1);
                    match find_char(r2, '\t') {
                        None => None,
                        Some(c) => Some((l.take(a), r1.take(b), r2.take(c), r2.skip(c + 1))),
                    }
                },
            }
        },
    }
}

/// The record a log line holds, if it is well formed.
pub open spec fn parse_line(l: Seq<char>) -> Option<(nat, Seq<char>, Seq<char>, Seq<char>)> {
    match split4(l) {
        Some((a, b, c, d)) => match parse_unsigned(a, 0xffff_ffff_ffff_ffff) {
            Some(n) => Some((n, b, c, d)),
            None => None,
        },
        None => None,
    }
}

/// The records of some lines, skipping malformed ones.
pub open spec fn parse_lines(ls: Seq<Seq<char>>) -> Seq<(nat, Seq<char>, Seq<char>, Seq<char>)>
    decreases ls.len(),
{
    if ls.len() == 0 {
        seq![]
    } else {
        match parse_line(ls[0]) {
            Some(t) => seq![t] + parse_lines(ls.drop_first()),
            None => parse_lines(ls.drop_first()),
        }
    }
}

/// The records of a log file: none if it is not UTF-8.
pub open spec fn log_records(b: Seq<u8>) -> Seq<(nat, Seq<char>, Seq<char>, Seq<char>)> {
    if valid_utf8(b) {
        parse_lines(lines(decode_utf8(b)))
    } else {
        seq![]
    }
}

/// One tuple as the caller sees it.
pub open spec fn tuple_view(t: (u64, String, String, String)) -> (nat, Seq<char>, Seq<char>, Seq<char>) {
    (t.0 as nat, t.1@, t.2@, t.3@)
}

/// `splitn(4, '\t')` when it yields four pieces.
fn split4_exec(l: &[char]) -> (r: Option<(Vec<char>, Vec<char>, Vec<char>, Vec<char>)>)
    ensures
        match r {
            Some((a, b, c, d)) => split4(l@) == Some((a@, b@, c@, d@)),
            None => split4(l@) is None,
        },
{
    proof {
        lemma_find_char_props(l@, '\t');
    }
    let a = match find_char_exec(l, '\t') {
        Some(a) => a,
        None => return None,
    };
    let n = l.len();
    assert(a < n);
    let r1 = slice_of(l, a + 1, l.len());
    assert(r1@ == l@.skip(a + 1));
    proof {
        lemma_find_char_props(r1@, '\t');
    }
    let b = match find_char_exec(&r1, '\t') {
        Some(b) => b,
        None => return None,
    };
    let r2 = slice_of(&r1, b + 1, r1.len());
    assert(r2@ == r1@.skip(b + 1));
    proof {
        lemma_find_char_props(r2@, '\t');
    }
    let c = match find_char_exec(&r2, '\t') {
        Some(c) => c,
        None => return None,
    };
    let p0 = slice_of(l, 0, a);
    let p1 = slice_of(&r1, 0, b);
    let p2 = slice_of(&r2, 0, c);
    let p3 = slice_of(&r2, c + 1, r2.len());
    assert(p0@ == l@.take(a as int));
    assert(p1@ == r1@.take(b as int));
    assert(p2@ == r2@.take(c as int));
    assert(p3@ == r2@.skip(c + 1));
    Some((p0, p1, p2, p3))
}

/// Parse the log back into records (for the shell's `log` command and
/// export). Total: malformed lines are skipped.
pub fn parse(data: &[u8]) -> (r: Vec<(u64, String, String, String)>)
    ensures
        r@.map_values(|t: (u64, String, String, String)| tuple_view(t)) == log_records(data@),
{
    let text = match str_from_utf8(data) {
        Some(t) => t,
        None => {
            let r: Vec<(u64, String, String, String)> = Vec::new();
            assert(r@.map_values(|t: (u64, String, String, String)| tuple_view(t)) =~= log_records(data@));
            return r;
        },
    };
    let cs = chars_of(text);
    let ls = lines_chars(&cs);
    let ghost all = views(ls@);
    let mut out: Vec<(u64, String, String, String)> = Vec::new();
    let mut i: usize = 0;
    assert(all.skip(0) == all);
    while i < ls.len()
        invariant
            i <= ls@.len(),
            all == views(ls@),
            all == lines(decode_utf8(data@)),
            valid_utf8(data@),
            parse_lines(all) == out@.map_values(|t: (u64, String, String, String)| tuple_view(t))
                + parse_lines(all.skip(i as int)),
        decreases ls@.len() - i,
    {
        let line = &ls[i];
        assert(line@ == all[i as int]);
        assert(all.skip(i as int).drop_first() == all.skip(i + 1));
        assert(all.skip(i as int)[0] == all[i as int]);
        let ghost before = out@.map_values(|t: (u64, String, String, String)| tuple_view(t));
        match split4_exec(line.as_slice()) {
            Some((a, b, c, d)) => {
                match parse_unsigned_exec(&a, 0xffff_ffff_ffff_ffff) {
                    Some(n) => {
                        let t = (n, string_of(&b), string_of(&c), string_of(&d));
                        out.push(t);
                        assert(out@.map_values(|t: (u64, String, String, String)| tuple_view(t))
                            =~= before.push(tuple_view(t)));
                        assert(before + (seq![tuple_view(t)] + parse_lines(all.skip(i + 1)))
                            =~= before.push(tuple_view(t)) + parse_lines(all.skip(i + 1)));
                    },
                    None => {},
                }
            },
            None => {},
        }
        i = i + 1;
    }
    assert(all.skip(i as int) =~= Seq::<Seq<char>>::empty());
    assert(out@.map_values(|t: (u64, String, String, String)| tuple_view(t)) + Seq::<
        (nat, Seq<char>, Seq<char>, Seq<char>),
    >::empty() =~= out@.map_values(|t: (u64, String, String, String)| tuple_view(t)));
    out
}

/// A record as the log holds it.
pub struct RecordV {
    pub seq: u64,
    pub entry: Seq<char>,
    pub phase: Seq<char>,
    pub result: Option<BootResult>,
}

/// The text of a log made by appending these records in order.
pub open spec fn log_text(recs: Seq<RecordV>) -> Seq<char>
    decreases recs.len(),
{
    if recs.len() == 0 {
        seq![]
    } else {
        render_text(recs[0].seq, recs[0].entry, recs[0].phase, recs[0].result) + log_text(
            recs.drop_first(),
        )
    }
}

/// The bytes of a log made by appending these records in order, one
/// `append_record` each.
pub open spec fn log_bytes(recs: Seq<RecordV>) -> Seq<u8>
    decreases recs.len(),
{
    if recs.len() == 0 {
        seq![]
    } else {
        log_bytes(recs.drop_last()) + encode_utf8(
            render_text(recs.last().seq, recs.last().entry, recs.last().phase, recs.last().result),
        )
    }
}

/// Text fit for a log field: no tab and no line break.
pub open spec fn plain_field(s: Seq<char>) -> bool {
    forall|i: int| 0 <= i < s.len() ==> s[i] != '\t' && s[i] != '\n'
}

proof fn lemma_encode_utf8_concat(a: Seq<char>, b: Seq<char>)
    ensures
        encode_utf8(a + b) == encode_utf8(a) + encode_utf8(b),
    decreases a.len(),
{
    if a.len() == 0 {
        assert(a + b == b);
    } else {
        lemma_encode_utf8_concat(a.drop_first(), b);
        assert((a + b).drop_first() == a.drop_first() + b);
        assert((a + b)[0] == a[0]);
    }
}

proof fn lemma_log_bytes(recs: Seq<RecordV>)
    ensures
        log_bytes(recs) == encode_utf8(log_text(recs)),
    decreases recs.len(),
{
    if recs.len() > 0 {
        lemma_log_bytes(recs.drop_last());
        lemma_log_text_push(recs.drop_last(), recs.last());
        assert(recs.drop_last().push(recs.last()) == recs);
        let r = recs.last();
        lemma_encode_utf8_concat(
            log_text(recs.drop_last()),
            render_text(r.seq, r.entry, r.phase, r.result),
        );
    }
}

proof fn lemma_log_text_push(recs: Seq<RecordV>, r: RecordV)
    ensures
        log_text(recs.push(r)) == log_text(recs) + render_text(r.seq, r.entry, r.phase, r.result),
    decreases recs.len(),
{
    if recs.len() == 0 {
        assert(recs.push(r).drop_first() == recs);
        assert(recs.push(r)[0] == r);
    } else {
        lemma_log_text_push(recs.drop_first(), r);
        assert(recs.push(r).drop_first() == recs.drop_first().push(r));
        assert(recs.push(r)[0] == recs[0]);
    }
}

/// Lines of a text that starts with a line `x` ended by `\n`.
proof fn lemma_lines_cons(x: Seq<char>, b: Seq<char>)
    requires
        forall|i: int| 0 <= i < x.len() ==> x[i] != '\n',
    ensures
        lines(x + seq!['\n'] + b) == seq![strip_cr(x)] + lines(b),
{
    let t = x + seq!['\n'] + b;
    assert(t[x.len() as int] == '\n');
    lemma_find_char_at(t, '\n', x.len() as int);
    assert(t.take(x.len() as int) == x);
    assert(t.skip(x.len() + 1int) == b);
    let p = split_on(b, '\n');
    lemma_split_nonempty(b, '\n');
    assert(split_on(t, '\n') == seq![x] + p);
    assert((seq![x] + p).drop_last() == seq![x] + p.drop_last());
    assert((seq![x] + p).last() == p.last());
    assert((seq![x] + p.drop_last()).map_values(|q: Seq<char>| strip_cr(q)) =~= seq![strip_cr(x)]
        + p.drop_last().map_values(|q: Seq<char>| strip_cr(q)));
    if p.last().len() != 0 {
        assert((seq![strip_cr(x)] + p.drop_last().map_values(|q: Seq<char>| strip_cr(q))).push(
            p.last(),
        ) =~= seq![strip_cr(x)] + p.drop_last().map_values(|q: Seq<char>| strip_cr(q)).push(
            p.last(),
        ));
    }
}

#[verifier::rlimit(60)]
proof fn lemma_parse_record_line(r: RecordV)
    requires
        plain_field(r.entry),
        plain_field(r.phase),
    ensures
        parse_line(record_line(r.seq, r.entry, r.phase, r.result)) == Some(
            (r.seq as nat, r.entry, r.phase, result_word(r.result)),
        ),
        forall|i: int|
            0 <= i < record_line(r.seq, r.entry, r.phase, r.result).len() ==> record_line(
                r.seq,
                r.entry,
                r.phase,
                r.result,
            )[i] != '\n',
        strip_cr(record_line(r.seq, r.entry, r.phase, r.result)) == record_line(
            r.seq,
            r.entry,
            r.phase,
            r.result,
        ),
{
    reveal_strlit("confirmed");
    reveal_strlit("failed");
    reveal_strlit("-");
    let d = dec(r.seq as nat);
    lemma_dec_digits(r.seq as nat);
    let w = result_word(r.result);
    let l = record_line(r.seq, r.entry, r.phase, r.result);
    let r1 = r.entry + seq!['\t'] + r.phase + seq!['\t'] + w;
    let r2 = r.phase + seq!['\t'] + w;
    assert(l == d + seq!['\t'] + r1);
    assert forall|i: int| 0 <= i < d.len() implies d[i] != '\t' && d[i] != '\n' by {
        assert(is_digit(d[i]));
    }
    assert(l[d.len() as int] == '\t');
    assert forall|i: int| 0 <= i < d.len() implies l[i] != '\t' by {
        assert(l[i] == d[i]);
    }
    lemma_find_char_at(l, '\t', d.len() as int);
    assert(l.skip(d.len() + 1int) == r1);
    assert(r1[r.entry.len() as int] == '\t');
    assert forall|i: int| 0 <= i < r.entry.len() implies r1[i] != '\t' by {
        assert(r1[i] == r.entry[i]);
    }
    lemma_find_char_at(r1, '\t', r.entry.len() as int);
    assert(r1.skip(r.entry.len() + 1int) == r2);
    assert(r2[r.phase.len() as int] == '\t');
    assert forall|i: int| 0 <= i < r.phase.len() implies r2[i] != '\t' by {
        assert(r2[i] == r.phase[i]);
    }
    lemma_find_char_at(r2, '\t', r.phase.len() as int);
    assert(l.take(d.len() as int) == d);
    assert(r1.take(r.entry.len() as int) == r.entry);
    assert(r2.take(r.phase.len() as int) == r.phase);
    assert(r2.skip(r.phase.len() + 1int) == w);
    assert(d[0] != '+') by {
        assert(is_digit(d[0]));
    }
    assert(parse_unsigned(d, 0xffff_ffff_ffff_ffff) == Some(r.seq as nat));
    assert forall|i: int| 0 <= i < l.len() implies l[i] != '\n' by {
        if i < d.len() {
            assert(l[i] == d[i]);
        } else if i > d.len() {
            let j = i - d.len() - 1;
            assert(l[i] == r1[j]);
            if j < r.entry.len() {
                assert(r1[j] == r.entry[j]);
            } else if j > r.entry.len() {
                let k = j - r.entry.len() - 1;
                assert(r1[j] == r2[k]);
                if k < r.phase.len() {
                    assert(r2[k] == r.phase[k]);
                } else if k > r.phase.len() {
                    assert(r2[k] == w[k - r.phase.len() - 1]);
                }
            }
        }
    }
    assert(l.last() == w.last());
}

/// Parsing a log made by appending records gives back each record: its
/// counter, entry, phase and result word, in order, whenever entries and
/// phases hold no tab or line break.
pub proof fn law_log_roundtrip(recs: Seq<RecordV>)
    requires
        forall|i: int| 0 <= i < recs.len() ==> plain_field(#[trigger] recs[i].entry) && plain_field(
            recs[i].phase,
        ),
    ensures
        log_records(log_bytes(recs)) == recs.map_values(
            |r: RecordV| (r.seq as nat, r.entry, r.phase, result_word(r.result)),
        ),
{
    lemma_log_bytes(recs);
    vstd::utf8::encode_utf8_valid_utf8(log_text(recs));
    vstd::utf8::encode_utf8_decode_utf8(log_text(recs));
    lemma_parse_log_text(recs);
}

proof fn lemma_parse_log_text(recs: Seq<RecordV>)
    requires
        forall|i: int| 0 <= i < recs.len() ==> plain_field(#[trigger] recs[i].entry) && plain_field(
            recs[i].phase,
        ),
    ensures
        parse_lines(lines(log_text(recs))) == recs.map_values(
            |r: RecordV| (r.seq as nat, r.entry, r.phase, result_word(r.result)),
        ),
    decreases recs.len(),
{
    if recs.len() == 0 {
        assert(split_on(Seq::<char>::empty(), '\n') == seq![Seq::<char>::empty()]);
        assert(lines(Seq::<char>::empty()) =~= Seq::<Seq<char>>::empty());
        assert(recs.map_values(|r: RecordV| (r.seq as nat, r.entry, r.phase, result_word(r.result)))
            =~= Seq::<(nat, Seq<char>, Seq<char>, Seq<char>)>::empty());
    } else {
        let r = recs[0];
        assert(plain_field(recs[0].entry) && plain_field(recs[0].phase));
        assert forall|i: int| 0 <= i < recs.drop_first().len() implies plain_field(
            #[trigger] recs.drop_first()[i].entry,
        ) && plain_field(recs.drop_first()[i].phase) by {
            assert(recs.drop_first()[i] == recs[i + 1]);
        }
        lemma_parse_log_text(recs.drop_first());
        lemma_parse_record_line(r);
        let x = record_line(r.seq, r.entry, r.phase, r.result);
        lemma_lines_cons(x, log_text(recs.drop_first()));
        assert(log_text(recs) == x + seq!['\n'] + log_text(recs.drop_first()));
        let ls = lines(log_text(recs));
        assert(ls == seq![x] + lines(log_text(recs.drop_first())));
        assert(ls[0] == x);
        assert(ls.drop_first() == lines(log_text(recs.drop_first())));
        assert(recs.map_values(|r: RecordV| (r.seq as nat, r.entry, r.phase, result_word(r.result)))
            =~= seq![(r.seq as nat, r.entry, r.phase, result_word(r.result))]
            + recs.drop_first().map_values(
            |r: RecordV| (r.seq as nat, r.entry, r.phase, result_word(r.result)),
        ));
    }
}

} // verus!
