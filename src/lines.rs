//! Turning the bytes of a history file into an ordered set of distinct lines,
//! and back into bytes.

use vstd::prelude::*;
use vstd::utf8::*;
use vstd::string::StrSliceExecFns;
use crate::config::Config;
use crate::protocol::HistFileError;

verus! {

broadcast use {vstd::string::axiom_spec_iter, encode_utf8_valid_utf8, encode_utf8_decode_utf8};

/// What `String::from_utf8_lossy` makes of bytes that are not valid UTF-8.
pub uninterp spec fn lossy_of(b: Seq<u8>) -> Seq<char>;

/// The text that a history file's bytes decode to.
pub open spec fn text_of(b: Seq<u8>) -> Seq<char> {
    if valid_utf8(b) {
        decode_utf8(b)
    } else {
        lossy_of(b)
    }
}

/// Relies on `String::from_utf8_lossy`: valid UTF-8 is decoded unchanged, and
/// what it makes of other bytes depends on the bytes alone.
#[verifier::external_body]
fn decode_lossy(b: &[u8]) -> (r: String)
    ensures
        valid_utf8(b@) ==> r@ == decode_utf8(b@),
        !valid_utf8(b@) ==> r@ == lossy_of(b@),
{
    String::from_utf8_lossy(b).into_owned()
}

/// Relies on `String::push`: appends one character.
#[verifier::external_body]
fn push_char(s: &mut String, c: char)
    ensures
        final(s)@ == old(s)@.push(c),
{
    s.push(c)
}

/// The pieces of `t` between line feeds: one more than there are line feeds.
pub open spec fn pieces(t: Seq<char>) -> Seq<Seq<char>>
    decreases t.len(),
{
    if t.len() == 0 {
        seq![Seq::<char>::empty()]
    } else {
        let p = pieces(t.drop_last());
        if t.last() == '\n' {
            p.push(Seq::<char>::empty())
        } else {
            p.update(p.len() - 1, p.last().push(t.last()))
        }
    }
}

/// The lines of `t`: its pieces between line feeds, where a final line feed
/// does not start an empty last line. Carriage returns stay in the lines.
pub open spec fn lines_of(t: Seq<char>) -> Seq<Seq<char>> {
    let p = pieces(t);
    if p.last().len() == 0 {
        p.drop_last()
    } else {
        p
    }
}

/// The text each string of `v` holds.
pub open spec fn texts(v: Seq<String>) -> Seq<Seq<char>> {
    v.map_values(|s: String| s@)
}

proof fn lemma_pieces_nonempty(t: Seq<char>)
    ensures
        pieces(t).len() >= 1,
    decreases t.len(),
{
    if t.len() > 0 {
        lemma_pieces_nonempty(t.drop_last());
    }
}

/// Splits `text` into its lines.
pub fn split_lines(text: &str) -> (r: Vec<String>)
    ensures
        texts(r@) == lines_of(text@),
{
    let mut lines: Vec<String> = Vec::new();
    let mut cur = String::new();
    for c in it: text.chars()
        invariant
            it.seq() == text@,
            texts(lines@).push(cur@) == pieces(text@.take(it.index())),
    {
        proof {
            let pre = text@.take(it.index());
            let now = text@.take(it.index() + 1);
            assert(now.drop_last() == pre);
            assert(now.last() == c);
            lemma_pieces_nonempty(pre);
        }
        if c == '\n' {
            lines.push(cur);
            cur = String::new();
        } else {
            push_char(&mut cur, c);
        }
        assert(texts(lines@).push(cur@) =~= pieces(text@.take(it.index() + 1)));
    }
    assert(text@.take(text@.len() as int) =~= text@);
    if cur.as_str().is_empty() {
        assert(texts(lines@) =~= lines_of(text@));
    } else {
        lines.push(cur);
        assert(texts(lines@) =~= lines_of(text@));
    }
    lines
}

/// The distinct lines of `s`, each where it first occurs.
pub open spec fn dedup(s: Seq<Seq<char>>) -> Seq<Seq<char>>
    decreases s.len(),
{
    if s.len() == 0 {
        s
    } else {
        let d = dedup(s.drop_last());
        if d.contains(s.last()) {
            d
        } else {
            d.push(s.last())
        }
    }
}

/// The lines of `s` that `config` keeps, in order.
pub open spec fn kept(config: &Config, s: Seq<Seq<char>>) -> Seq<Seq<char>>
    decreases s.len(),
{
    if s.len() == 0 {
        s
    } else {
        let k = kept(config, s.drop_last());
        if config.keeps(s.last()) {
            k.push(s.last())
        } else {
            k
        }
    }
}

/// The lines that a history file with bytes `b` keeps: its distinct lines,
/// each where it first occurs, that pass `config` where one is given.
pub open spec fn kept_lines(b: Seq<u8>, config: Option<&Config>) -> Seq<Seq<char>> {
    match config {
        Some(c) => kept(c, dedup(lines_of(text_of(b)))),
        None => dedup(lines_of(text_of(b))),
    }
}

/// The bytes that a history file with bytes `b` is rewritten with.
pub open spec fn cleaned(b: Seq<u8>, config: Option<&Config>) -> Seq<u8> {
    serialized(kept_lines(b, config))
}

/// Each line followed by one line feed, as text.
pub open spec fn joined(ls: Seq<Seq<char>>) -> Seq<char>
    decreases ls.len(),
{
    if ls.len() == 0 {
        Seq::empty()
    } else {
        joined(ls.drop_last()) + ls.last() + seq!['\n']
    }
}

/// Each line followed by one line feed, as UTF-8.
pub open spec fn serialized(ls: Seq<Seq<char>>) -> Seq<u8>
    decreases ls.len(),
{
    if ls.len() == 0 {
        Seq::empty()
    } else {
        serialized(ls.drop_last()) + encode_utf8(ls.last()) + seq![10u8]
    }
}

/// The content to rewrite a history file with, from what reading it gave:
/// where the read failed (`None`), `ReadFailed`, and nothing is to be written.
pub fn content_from_read(read: Option<&[u8]>, config: Option<&Config>) -> (r: Result<
    Vec<u8>,
    HistFileError,
>)
    ensures
        read is None ==> r == Err::<Vec<u8>, HistFileError>(HistFileError::ReadFailed),
        read matches Some(b) ==> r is Ok && r->Ok_0@ == cleaned(b@, config),
{
    match read {
        Some(b) => Ok(filtered_content(b, config)),
        None => Err(HistFileError::ReadFailed),
    }
}

/// Whether some string of `v` holds the text of `l`.
fn contains_line(v: &Vec<String>, l: &String) -> (r: bool)
    ensures
        r == texts(v@).contains(l@),
{
    let mut i: usize = 0;
    while i < v.len()
        invariant
            i <= v.len(),
            forall|j: int| 0 <= j < i ==> v@[j]@ != l@,
        decreases v.len() - i,
    {
        if v[i] == *l {
            assert(texts(v@)[i as int] == l@);
            return true;
        }
        i = i + 1;
    }
    assert forall|j: int| 0 <= j < texts(v@).len() implies texts(v@)[j] != l@ by {
        assert(v@[j]@ != l@);
    }
    false
}

/// Keeps the first occurrence of each line, in order.
pub fn dedup_lines(lines: &Vec<String>) -> (r: Vec<String>)
    ensures
        texts(r@) == dedup(texts(lines@)),
{
    let mut out: Vec<String> = Vec::new();
    let mut i: usize = 0;
    while i < lines.len()
        invariant
            i <= lines.len(),
            texts(out@) == dedup(texts(lines@).take(i as int)),
        decreases lines.len() - i,
    {
        let ghost pre = texts(lines@).take(i as int);
        assert(texts(lines@).take(i + 1).drop_last() =~= pre);
        if !contains_line(&out, &lines[i]) {
            out.push(lines[i].clone());
        }
        assert(texts(out@) =~= dedup(texts(lines@).take(i + 1)));
        i = i + 1;
    }
    assert(texts(lines@).take(lines.len() as int) =~= texts(lines@));
    out
}

/// The lines of `lines` that pass every filter of `config`, in order.
pub fn filter_lines(lines: &Vec<String>, config: &Config) -> (r: Vec<String>)
    ensures
        texts(r@) == kept(config, texts(lines@)),
{
    let mut out: Vec<String> = Vec::new();
    let mut i: usize = 0;
    while i < lines.len()
        invariant
            i <= lines.len(),
            texts(out@) == kept(config, texts(lines@).take(i as int)),
        decreases lines.len() - i,
    {
        let ghost pre = texts(lines@).take(i as int);
        assert(texts(lines@).take(i + 1).drop_last() =~= pre);
        let line = &lines[i];
        let n = line.as_str().unicode_len();
        let listed = match &config.blacklist {
            Some(b) => contains_line(b, line),
            None => false,
        };
        let short = match config.min_char_limit {
            Some(m) => (n as u64) < m,
            None => false,
        };
        let long = match config.max_char_limit {
            Some(m) => (n as u64) > m,
            None => false,
        };
        if !listed && !short && !long {
            out.push(line.clone());
        }
        assert(texts(out@) =~= kept(config, texts(lines@).take(i + 1)));
        i = i + 1;
    }
    assert(texts(lines@).take(lines.len() as int) =~= texts(lines@));
    out
}

/// Reads the distinct lines of a history file's bytes, each where it first
/// occurs.
pub fn get_filtered_history(buffer: &[u8]) -> (r: Vec<String>)
    ensures
        texts(r@) == dedup(lines_of(text_of(buffer@))),
{
    let text = decode_lossy(buffer);
    let lines = split_lines(text.as_str());
    dedup_lines(&lines)
}

/// Writes each line followed by one line feed, as the bytes of a history file.
pub fn get_filtered_history_bytes(history: &Vec<String>) -> (r: Vec<u8>)
    ensures
        r@ == serialized(texts(history@)),
{
    let mut out: Vec<u8> = Vec::new();
    let mut i: usize = 0;
    while i < history.len()
        invariant
            i <= history.len(),
            out@ == serialized(texts(history@).take(i as int)),
        decreases history.len() - i,
    {
        assert(texts(history@).take(i + 1).drop_last() =~= texts(history@).take(i as int));
        let bytes = history[i].as_str().as_bytes();
        let ghost start = out@;
        let mut j: usize = 0;
        while j < bytes.len()
            invariant
                j <= bytes@.len(),
                out@ == start + bytes@.take(j as int),
            decreases bytes@.len() - j,
        {
            out.push(bytes[j]);
            assert(out@ =~= start + bytes@.take(j + 1));
            j = j + 1;
        }
        assert(bytes@.take(bytes@.len() as int) =~= bytes@);
        out.push(10u8);
        assert(out@ =~= serialized(texts(history@).take(i + 1)));
        i = i + 1;
    }
    assert(texts(history@).take(history.len() as int) =~= texts(history@));
    out
}

/// The content a history file is rewritten with: its distinct lines, each
/// where it first occurs, that pass `config` where one is given, each followed
/// by one line feed.
pub fn filtered_content(buffer: &[u8], config: Option<&Config>) -> (r: Vec<u8>)
    ensures
        r@ == cleaned(buffer@, config),
{
    let lines = get_filtered_history(buffer);
    match config {
        Some(c) => {
            let kept_lines = filter_lines(&lines, c);
            get_filtered_history_bytes(&kept_lines)
        },
        None => get_filtered_history_bytes(&lines),
    }
}

/// No line contains a line feed.
pub open spec fn plain_lines(ls: Seq<Seq<char>>) -> bool {
    forall|i: int| 0 <= i < ls.len() ==> !(#[trigger] ls[i]).contains('\n')
}

proof fn lemma_pieces_plain(t: Seq<char>)
    ensures
        plain_lines(pieces(t)),
    decreases t.len(),
{
    if t.len() > 0 {
        lemma_pieces_plain(t.drop_last());
        lemma_pieces_nonempty(t.drop_last());
        let p = pieces(t.drop_last());
        if t.last() != '\n' {
            let l = p.last().push(t.last());
            assert forall|k: int| 0 <= k < l.len() implies l[k] != '\n' by {
                if k < l.len() - 1 {
                    assert(p[p.len() - 1][k] == l[k]);
                }
            }
        }
    }
}

proof fn lemma_lines_plain(t: Seq<char>)
    ensures
        plain_lines(lines_of(t)),
{
    lemma_pieces_plain(t);
    lemma_pieces_nonempty(t);
    let p = pieces(t);
    assert forall|i: int| 0 <= i < lines_of(t).len() implies !(#[trigger] lines_of(t)[i]).contains(
        '\n',
    ) by {
        assert(lines_of(t)[i] == p[i]);
    }
}

proof fn lemma_pieces_append_plain(x: Seq<char>, l: Seq<char>)
    requires
        !l.contains('\n'),
    ensures
        pieces(x + l) == pieces(x).update(pieces(x).len() - 1, pieces(x).last() + l),
    decreases l.len(),
{
    lemma_pieces_nonempty(x);
    let p = pieces(x);
    if l.len() == 0 {
        assert(x + l =~= x);
        assert(p.last() + l =~= p.last());
        assert(p.update(p.len() - 1, p.last() + l) =~= p);
    } else {
        let l0 = l.drop_last();
        assert(!l0.contains('\n')) by {
            assert forall|k: int| 0 <= k < l0.len() implies l0[k] != '\n' by {
                assert(l[k] == l0[k]);
            }
        }
        lemma_pieces_append_plain(x, l0);
        assert((x + l).drop_last() =~= x + l0);
        assert((x + l).last() == l.last());
        assert(l.last() != '\n') by {
            assert(l[l.len() - 1] == l.last());
        }
        let p1 = pieces(x + l0);
        assert(p1.len() == p.len());
        assert(p1.last() == p.last() + l0);
        assert(pieces(x + l) == p1.update(p1.len() - 1, p1.last().push(l.last())));
        assert(p1.last().push(l.last()) =~= p.last() + l);
        assert(pieces(x + l) =~= p.update(p.len() - 1, p.last() + l));
    }
}

proof fn lemma_pieces_joined(ls: Seq<Seq<char>>)
    requires
        plain_lines(ls),
    ensures
        pieces(joined(ls)) == ls.push(Seq::<char>::empty()),
    decreases ls.len(),
{
    if ls.len() == 0 {
        assert(pieces(joined(ls)) =~= ls.push(Seq::<char>::empty()));
    } else {
        let rest = ls.drop_last();
        assert(plain_lines(rest)) by {
            assert forall|i: int| 0 <= i < rest.len() implies !(#[trigger] rest[i]).contains('\n') by {
                assert(rest[i] == ls[i]);
            }
        }
        lemma_pieces_joined(rest);
        assert(!ls.last().contains('\n')) by {
            assert(ls[ls.len() - 1] == ls.last());
        }
        lemma_pieces_append_plain(joined(rest), ls.last());
        let y = joined(rest) + ls.last();
        assert(Seq::<char>::empty() + ls.last() =~= ls.last());
        assert(pieces(y) =~= ls);
        assert((y + seq!['\n']).drop_last() =~= y);
        assert(joined(ls) == y + seq!['\n']);
        assert(pieces(joined(ls)) =~= ls.push(Seq::<char>::empty()));
    }
}

proof fn lemma_encode_concat(a: Seq<char>, b: Seq<char>)
    ensures
        encode_utf8(a + b) == encode_utf8(a) + encode_utf8(b),
    decreases a.len(),
{
    if a.len() == 0 {
        assert(a + b =~= b);
        assert(encode_utf8(a) + encode_utf8(b) =~= encode_utf8(b));
    } else {
        lemma_encode_concat(a.drop_first(), b);
        assert((a + b).drop_first() =~= a.drop_first() + b);
        assert((a + b)[0] == a[0]);
        assert(encode_utf8(a + b) =~= encode_utf8(a) + encode_utf8(b));
    }
}

proof fn lemma_serialized_encodes_joined(ls: Seq<Seq<char>>)
    ensures
        serialized(ls) == encode_utf8(joined(ls)),
    decreases ls.len(),
{
    if ls.len() > 0 {
        lemma_serialized_encodes_joined(ls.drop_last());
        let j = joined(ls.drop_last());
        lemma_encode_concat(j + ls.last(), seq!['\n']);
        lemma_encode_concat(j, ls.last());
        assert(seq!['\n'].drop_first() =~= Seq::<char>::empty());
        assert((10u32 & 0x7Fu32) == 10u32) by (bit_vector);
        assert(('\n' as u32) == 10u32);
        assert(encode_scalar('\n' as u32) =~= seq![10u8]);
        assert(seq!['\n'][0] == '\n');
        assert(encode_utf8(Seq::<char>::empty()) =~= Seq::<u8>::empty());
        assert(encode_utf8(seq!['\n']) =~= seq![10u8]);
    }
}

proof fn lemma_dedup_basic(s: Seq<Seq<char>>)
    ensures
        dedup(s).no_duplicates(),
        forall|x: Seq<char>| dedup(s).contains(x) <==> s.contains(x),
    decreases s.len(),
{
    if s.len() > 0 {
        let rest = s.drop_last();
        lemma_dedup_basic(rest);
        let d0 = dedup(rest);
        let d = dedup(s);
        assert forall|x: Seq<char>| d.contains(x) <==> s.contains(x) by {
            if s.contains(x) {
                let k = choose|k: int| 0 <= k < s.len() && s[k] == x;
                if k < s.len() - 1 {
                    assert(rest[k] == x);
                    assert(rest.contains(x));
                    assert(d0.contains(x));
                    let j = choose|j: int| 0 <= j < d0.len() && d0[j] == x;
                    assert(d[j] == x);
                } else if !d0.contains(s.last()) {
                    assert(d[d0.len() as int] == x);
                }
            }
            if d.contains(x) {
                let j = choose|j: int| 0 <= j < d.len() && d[j] == x;
                if j < d0.len() {
                    assert(d0[j] == x);
                    assert(d0.contains(x));
                    assert(rest.contains(x));
                    let k = choose|k: int| 0 <= k < rest.len() && rest[k] == x;
                    assert(s[k] == x);
                } else {
                    assert(s[s.len() - 1] == x);
                }
            }
        }
        if !d0.contains(s.last()) {
            assert forall|i: int, j: int| 0 <= i < d.len() && 0 <= j < d.len() && i != j
                implies d[i] != d[j] by {
                if i == d0.len() {
                    assert(d0[j] == d[j]);
                } else if j == d0.len() {
                    assert(d0[i] == d[i]);
                } else {
                    assert(d0[i] == d[i] && d0[j] == d[j]);
                }
            }
        }
    }
}

proof fn lemma_dedup_distinct(s: Seq<Seq<char>>)
    requires
        s.no_duplicates(),
    ensures
        dedup(s) == s,
    decreases s.len(),
{
    if s.len() > 0 {
        let rest = s.drop_last();
        assert(rest.no_duplicates()) by {
            assert forall|i: int, j: int| 0 <= i < rest.len() && 0 <= j < rest.len() && i != j
                implies rest[i] != rest[j] by {
                assert(rest[i] == s[i] && rest[j] == s[j]);
            }
        }
        lemma_dedup_distinct(rest);
        assert(!rest.contains(s.last())) by {
            if rest.contains(s.last()) {
                let k = choose|k: int| 0 <= k < rest.len() && rest[k] == s.last();
                assert(s[k] == s[s.len() - 1]);
            }
        }
        assert(rest.push(s.last()) =~= s);
    }
}

proof fn lemma_kept_basic(c: &Config, s: Seq<Seq<char>>)
    ensures
        forall|x: Seq<char>| #[trigger] kept(c, s).contains(x) ==> s.contains(x) && c.keeps(x),
        s.no_duplicates() ==> kept(c, s).no_duplicates(),
        (forall|i: int| 0 <= i < s.len() ==> c.keeps(#[trigger] s[i])) ==> kept(c, s) == s,
    decreases s.len(),
{
    if s.len() > 0 {
        let rest = s.drop_last();
        lemma_kept_basic(c, rest);
        let k = kept(c, rest);
        let ks = kept(c, s);
        assert forall|x: Seq<char>| ks.contains(x) implies s.contains(x) && c.keeps(x) by {
            let j = choose|j: int| 0 <= j < ks.len() && ks[j] == x;
            if j < k.len() {
                assert(k[j] == x);
                assert(k.contains(x));
                let m = choose|m: int| 0 <= m < rest.len() && rest[m] == x;
                assert(s[m] == x);
            } else {
                assert(s[s.len() - 1] == x);
            }
        }
        if s.no_duplicates() {
            assert(rest.no_duplicates()) by {
                assert forall|i: int, j: int|
                    0 <= i < rest.len() && 0 <= j < rest.len() && i != j implies rest[i]
                    != rest[j] by {
                    assert(rest[i] == s[i] && rest[j] == s[j]);
                }
            }
            if c.keeps(s.last()) {
                assert(!k.contains(s.last())) by {
                    if k.contains(s.last()) {
                        let m = choose|m: int| 0 <= m < rest.len() && rest[m] == s.last();
                        assert(s[m] == s[s.len() - 1]);
                    }
                }
                assert forall|i: int, j: int| 0 <= i < ks.len() && 0 <= j < ks.len() && i != j
                    implies ks[i] != ks[j] by {
                    if i == k.len() {
                        assert(k[j] == ks[j]);
                    } else if j == k.len() {
                        assert(k[i] == ks[i]);
                    } else {
                        assert(k[i] == ks[i] && k[j] == ks[j]);
                    }
                }
            }
        }
        if forall|i: int| 0 <= i < s.len() ==> c.keeps(#[trigger] s[i]) {
            assert forall|i: int| 0 <= i < rest.len() implies c.keeps(#[trigger] rest[i]) by {
                assert(rest[i] == s[i]);
            }
            assert(c.keeps(s[s.len() - 1]));
            assert(rest.push(s.last()) =~= s);
        }
    }
}

/// Filtering the content that filtering produced changes nothing: the same
/// bytes come out again.
pub proof fn lemma_filter_idempotent(b: Seq<u8>, config: Option<&Config>)
    ensures
        cleaned(cleaned(b, config), config) == cleaned(b, config),
{
    let t = text_of(b);
    let ls = lines_of(t);
    let d = dedup(ls);
    let out = kept_lines(b, config);
    lemma_lines_plain(t);
    lemma_dedup_basic(ls);
    match config {
        Some(c) => lemma_kept_basic(c, d),
        None => {},
    }
    assert(out.no_duplicates());
    assert(plain_lines(out)) by {
        assert forall|i: int| 0 <= i < out.len() implies !(#[trigger] out[i]).contains('\n') by {
            assert(out.contains(out[i]));
            assert(d.contains(out[i]));
            assert(ls.contains(out[i]));
            let k = choose|k: int| 0 <= k < ls.len() && ls[k] == out[i];
        }
    }
    lemma_serialized_encodes_joined(out);
    let bytes = cleaned(b, config);
    assert(text_of(bytes) == joined(out));
    lemma_pieces_joined(out);
    assert(lines_of(joined(out)) =~= out);
    lemma_dedup_distinct(out);
    match config {
        Some(c) => {
            lemma_kept_basic(c, out);
            assert forall|i: int| 0 <= i < out.len() implies c.keeps(#[trigger] out[i]) by {
                assert(out.contains(out[i]));
            }
        },
        None => {},
    }
}

/// Whether `x` occurs in `s` before position `q`.
pub open spec fn occurs_before(s: Seq<Seq<char>>, x: Seq<char>, q: int) -> bool {
    exists|p: int| 0 <= p < q && s[p] == x
}

/// Deduplication keeps each distinct line once and drops no distinct line, and
/// the lines come out in the order of their first occurrences: where one line
/// stands before another in the result, it occurs in the input before any
/// occurrence of the other.
pub proof fn lemma_first_occurrence_order(s: Seq<Seq<char>>)
    ensures
        dedup(s).no_duplicates(),
        forall|x: Seq<char>| dedup(s).contains(x) <==> s.contains(x),
        forall|i: int, j: int, q: int|
            #![trigger dedup(s)[i], dedup(s)[j], s[q]]
            0 <= i < j < dedup(s).len() && 0 <= q < s.len() && s[q] == dedup(s)[j]
                ==> occurs_before(s, dedup(s)[i], q),
    decreases s.len(),
{
    lemma_dedup_basic(s);
    if s.len() > 0 {
        let rest = s.drop_last();
        let d = dedup(s);
        let d0 = dedup(rest);
        lemma_first_occurrence_order(rest);
        lemma_dedup_basic(rest);
        assert forall|i: int, j: int, q: int|
            #![trigger d[i], d[j], s[q]]
            0 <= i < j < d.len() && 0 <= q < s.len() && s[q] == d[j] implies occurs_before(
                s,
                d[i],
                q,
            ) by {
            if j < d0.len() {
                assert(d[i] == d0[i] && d[j] == d0[j]);
                if q < s.len() - 1 {
                    assert(rest[q] == d0[j]);
                    let p = choose|p: int| 0 <= p < q && rest[p] == d0[i];
                    assert(s[p] == d[i]);
                } else {
                    assert(d0.contains(d0[j]));
                    assert(rest.contains(d0[j]));
                    let q2 = choose|q2: int| 0 <= q2 < rest.len() && rest[q2] == d0[j];
                    let p = choose|p: int| 0 <= p < q2 && rest[p] == d0[i];
                    assert(s[p] == d[i]);
                }
            } else {
                assert(d[j] == s.last());
                assert(!rest.contains(s.last()));
                if q < s.len() - 1 {
                    assert(rest[q] == s.last());
                }
                assert(d[i] == d0[i]);
                assert(d0.contains(d0[i]));
                assert(rest.contains(d0[i]));
                let p = choose|p: int| 0 <= p < rest.len() && rest[p] == d0[i];
                assert(s[p] == d[i]);
            }
        }
    }
}

} // verus!
