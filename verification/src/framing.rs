//! Framing of a request buffer: its lines, and the removal of a marker from
//! a line.
use vstd::prelude::*;
use vstd::utf8::encode_utf8;

verus! {

/// Carriage return or line feed.
pub open spec fn is_line_break(b: u8) -> bool {
    b == 13u8 || b == 10u8
}

/// The non-empty runs of `s` between line breaks, in order, where `cur` is a
/// run already begun before `s`.
pub open spec fn lines_from(s: Seq<u8>, cur: Seq<u8>) -> Seq<Seq<u8>>
    decreases s.len(),
{
    if s.len() == 0 {
        if cur.len() > 0 { seq![cur] } else { seq![] }
    } else if is_line_break(s[0]) {
        (if cur.len() > 0 { seq![cur] } else { Seq::<Seq<u8>>::empty() }) + lines_from(s.drop_first(), seq![])
    } else {
        lines_from(s.drop_first(), cur.push(s[0]))
    }
}

/// The non-empty lines of a buffer: the maximal runs of bytes that hold no
/// carriage return or line feed, in order.
pub open spec fn lines(s: Seq<u8>) -> Seq<Seq<u8>> {
    lines_from(s, seq![])
}

/// The contents of a vector of byte vectors.
pub open spec fn byte_rows(v: Seq<Vec<u8>>) -> Seq<Seq<u8>> {
    v.map_values(|r: Vec<u8>| r@)
}

/// Splits a buffer at carriage returns and line feeds and keeps the
/// non-empty pieces.
pub fn split_lines(buf: &[u8]) -> (rows: Vec<Vec<u8>>)
    ensures
        byte_rows(rows@) == lines(buf@),
{
    let mut rows: Vec<Vec<u8>> = Vec::new();
    let mut cur: Vec<u8> = Vec::new();
    let mut i: usize = 0;
    assert(buf@.skip(0) =~= buf@);
    while i < buf.len()
        invariant
            i <= buf@.len(),
            lines(buf@) == byte_rows(rows@) + lines_from(buf@.skip(i as int), cur@),
        decreases buf@.len() - i,
    {
        let b = buf[i];
        let ghost rest = buf@.skip(i as int);
        assert(rest.drop_first() =~= buf@.skip(i + 1));
        assert(rest[0] == b);
        let ghost old_rows = rows@;
        let ghost old_cur = cur@;
        if b == 13u8 || b == 10u8 {
            if cur.len() > 0 {
                let mut line: Vec<u8> = Vec::new();
                std::mem::swap(&mut line, &mut cur);
                rows.push(line);
                assert(byte_rows(rows@) =~= byte_rows(old_rows) + seq![old_cur]);
                assert(lines_from(rest, old_cur) == seq![old_cur] + lines_from(rest.drop_first(), seq![]));
                assert(byte_rows(old_rows) + (seq![old_cur] + lines_from(rest.drop_first(), seq![]))
                    =~= byte_rows(rows@) + lines_from(rest.drop_first(), seq![]));
            } else {
                assert(lines_from(rest, old_cur) == Seq::<Seq<u8>>::empty() + lines_from(rest.drop_first(), seq![]));
                assert(Seq::<Seq<u8>>::empty() + lines_from(rest.drop_first(), seq![]) =~= lines_from(rest.drop_first(), seq![]));
                assert(cur@ =~= Seq::<u8>::empty());
            }
        } else {
            cur.push(b);
            assert(lines_from(rest, old_cur) == lines_from(rest.drop_first(), old_cur.push(b)));
        }
        i += 1;
    }
    assert(buf@.skip(i as int) =~= Seq::<u8>::empty());
    if cur.len() > 0 {
        let ghost old_rows = rows@;
        let ghost old_cur = cur@;
        rows.push(cur);
        assert(byte_rows(rows@) =~= byte_rows(old_rows) + seq![old_cur]);
    } else {
        assert(byte_rows(rows@) + Seq::<Seq<u8>>::empty() =~= byte_rows(rows@));
    }
    rows
}

/// `s` with every occurrence of `pat` removed, matches taken from left to
/// right without overlap.
pub open spec fn remove_all(s: Seq<char>, pat: Seq<char>) -> Seq<char>
    decreases s.len(),
{
    if s.len() == 0 {
        s
    } else if 0 < pat.len() <= s.len() && s.take(pat.len() as int) == pat {
        remove_all(s.skip(pat.len() as int), pat)
    } else {
        seq![s[0]] + remove_all(s.skip(1), pat)
    }
}

/// `pat` stands in `s` at position `i`, character for character.
pub open spec fn occurs_at(s: Seq<char>, pat: Seq<char>, i: int) -> bool {
    0 <= i && i + pat.len() <= s.len() && s.subrange(i, i + pat.len()) == pat
}

/// A text in which `pat` does not occur is left unchanged.
pub proof fn lemma_remove_all_without_occurrence(s: Seq<char>, pat: Seq<char>)
    requires
        forall|i: int| !#[trigger] occurs_at(s, pat, i),
    ensures
        remove_all(s, pat) == s,
    decreases s.len(),
{
    if s.len() > 0 {
        if 0 < pat.len() <= s.len() {
            assert(s.take(pat.len() as int) == s.subrange(0, pat.len() as int));
            assert(!occurs_at(s, pat, 0));
        }
        let t = s.skip(1);
        assert forall|i: int| !#[trigger] occurs_at(t, pat, i) by {
            if occurs_at(t, pat, i) {
                assert(t.subrange(i, i + pat.len()) =~= s.subrange(i + 1, i + 1 + pat.len()));
                assert(occurs_at(s, pat, i + 1));
            }
        }
        lemma_remove_all_without_occurrence(t, pat);
        assert(seq![s[0]] + t =~= s);
    }
}

/// The first occurrence of `pat` is cut out and what stands before it is
/// kept: when `pat` starts nowhere in `a` (not even running on into what
/// follows), `a`, `pat`, `b` lose exactly that `pat`, and the rest of the
/// text is handled the same way.
pub proof fn lemma_remove_all_first_occurrence(a: Seq<char>, pat: Seq<char>, b: Seq<char>)
    requires
        pat.len() > 0,
        forall|i: int| 0 <= i < a.len() ==> !#[trigger] occurs_at(a + pat + b, pat, i),
    ensures
        remove_all(a + pat + b, pat) == a + remove_all(b, pat),
    decreases a.len(),
{
    let s = a + pat + b;
    if a.len() == 0 {
        assert(s.take(pat.len() as int) =~= pat);
        assert(s.skip(pat.len() as int) =~= b);
        assert(a + remove_all(b, pat) =~= remove_all(b, pat));
    } else {
        assert(!occurs_at(s, pat, 0));
        assert(s.take(pat.len() as int) == s.subrange(0, pat.len() as int));
        let a1 = a.drop_first();
        assert(s.skip(1) =~= a1 + pat + b);
        assert forall|i: int| 0 <= i < a1.len() implies !#[trigger] occurs_at(a1 + pat + b, pat, i) by {
            assert(!occurs_at(s, pat, i + 1));
            if occurs_at(a1 + pat + b, pat, i) {
                assert((a1 + pat + b).subrange(i, i + pat.len()) =~= s.subrange(i + 1, i + 1 + pat.len()));
            }
        }
        lemma_remove_all_first_occurrence(a1, pat, b);
        assert(s[0] == a[0]);
        assert(seq![a[0]] + (a1 + remove_all(b, pat)) =~= a + remove_all(b, pat));
    }
}

fn matches_at(s: &Vec<char>, i: usize, pat: &Vec<char>) -> (r: bool)
    requires
        i <= s@.len(),
    ensures
        r == (pat@.len() <= s@.len() - i && s@.skip(i as int).take(pat@.len() as int) == pat@),
{
    if pat.len() > s.len() - i {
        return false;
    }
    let n = s.len();
    let mut j: usize = 0;
    while j < pat.len()
        invariant
            n == s@.len(),
            i <= s@.len(),
            pat@.len() <= s@.len() - i,
            j <= pat@.len(),
            forall|k: int| 0 <= k < j ==> s@[i + k] == pat@[k],
        decreases pat@.len() - j,
    {
        if s[i + j] != pat[j] {
            assert(s@.skip(i as int).take(pat@.len() as int)[j as int] != pat@[j as int]);
            return false;
        }
        j += 1;
    }
    assert(s@.skip(i as int).take(pat@.len() as int) =~= pat@);
    true
}

/// Removes every occurrence of `pat` from `s` (see `remove_all`).
pub fn remove_all_occurrences(s: &Vec<char>, pat: &Vec<char>) -> (r: Vec<char>)
    ensures
        r@ == remove_all(s@, pat@),
{
    let mut out: Vec<char> = Vec::new();
    let mut i: usize = 0;
    assert(s@.skip(0) =~= s@);
    while i < s.len()
        invariant
            i <= s@.len(),
            remove_all(s@, pat@) == out@ + remove_all(s@.skip(i as int), pat@),
        decreases s@.len() - i,
    {
        let ghost rest = s@.skip(i as int);
        if pat.len() > 0 && matches_at(s, i, pat) {
            assert(rest.skip(pat@.len() as int) =~= s@.skip(i + pat@.len()));
            i += pat.len();
        } else {
            assert(rest.skip(1) =~= s@.skip(i + 1));
            assert(rest[0] == s@[i as int]);
            let ghost old_out = out@;
            out.push(s[i]);
            assert(out@ + remove_all(s@.skip(i + 1), pat@) =~= old_out + (seq![rest[0]] + remove_all(rest.skip(1), pat@)));
            i += 1;
        }
    }
    assert(s@.skip(i as int) =~= Seq::<char>::empty());
    assert(out@ + Seq::<char>::empty() =~= out@);
    out
}


/// No carriage return or line feed in the text.
pub open spec fn no_line_breaks(s: Seq<char>) -> bool {
    forall|i: int| 0 <= i < s.len() ==> #[trigger] s[i] != '\r' && s[i] != '\n'
}

/// No carriage return or line feed byte.
pub open spec fn no_break_bytes(s: Seq<u8>) -> bool {
    forall|i: int| 0 <= i < s.len() ==> !is_line_break(#[trigger] s[i])
}

/// The text of a line: the characters its bytes encode when they are valid
/// UTF-8, otherwise the lossy decoding named by `utf8_lossy`.
pub open spec fn line_text(bytes: Seq<u8>) -> Seq<char> {
    if vstd::utf8::valid_utf8(bytes) {
        vstd::utf8::decode_utf8(bytes)
    } else {
        utf8_lossy(bytes)
    }
}

/// What `String::from_utf8_lossy` gives for bytes that are not valid UTF-8
/// (each invalid sequence becomes U+FFFD).
pub uninterp spec fn utf8_lossy(bytes: Seq<u8>) -> Seq<char>;

/// Decodes bytes with `String::from_utf8_lossy`. Trusted: for valid UTF-8
/// the std documentation says the text is returned as it is; for other
/// input the result is left to the name `utf8_lossy`.
#[verifier::external_body]
pub(crate) fn decode_lossy(bytes: &[u8]) -> (s: String)
    ensures
        vstd::utf8::valid_utf8(bytes@) ==> s@ == vstd::utf8::decode_utf8(bytes@),
        !vstd::utf8::valid_utf8(bytes@) ==> s@ == utf8_lossy(bytes@),
{
    String::from_utf8_lossy(bytes).into_owned()
}

/// UTF-8 encoding distributes over concatenation.
pub proof fn lemma_encode_concat(a: Seq<char>, b: Seq<char>)
    ensures
        vstd::utf8::encode_utf8(a + b) == vstd::utf8::encode_utf8(a) + vstd::utf8::encode_utf8(b),
    decreases a.len(),
{
    if a.len() == 0 {
        assert(a + b =~= b);
        assert(vstd::utf8::encode_utf8(a) =~= Seq::<u8>::empty());
        assert(Seq::<u8>::empty() + vstd::utf8::encode_utf8(b) =~= vstd::utf8::encode_utf8(b));
    } else {
        assert((a + b).drop_first() =~= a.drop_first() + b);
        assert((a + b)[0] == a[0]);
        lemma_encode_concat(a.drop_first(), b);
        assert(vstd::utf8::encode_utf8(a + b) =~= vstd::utf8::encode_scalar(a[0] as u32)
            + (vstd::utf8::encode_utf8(a.drop_first()) + vstd::utf8::encode_utf8(b)));
    }
}

proof fn lemma_high_bytes(x: u32)
    ensures
        (0xC0u8 | ((x >> 6) & 0x1F) as u8) >= 0x80,
        (0xE0u8 | ((x >> 12) & 0x0F) as u8) >= 0x80,
        (0xF0u8 | ((x >> 18) & 0x7) as u8) >= 0x80,
        (0x80u8 | (x & 0x3F) as u8) >= 0x80,
        (0x80u8 | ((x >> 6) & 0x3F) as u8) >= 0x80,
        (0x80u8 | ((x >> 12) & 0x3F) as u8) >= 0x80,
{
    assert(forall|y: u8| #![auto] (0xC0u8 | y) >= 0x80) by (bit_vector);
    assert(forall|y: u8| #![auto] (0xE0u8 | y) >= 0x80) by (bit_vector);
    assert(forall|y: u8| #![auto] (0xF0u8 | y) >= 0x80) by (bit_vector);
    assert(forall|y: u8| #![auto] (0x80u8 | y) >= 0x80) by (bit_vector);
}

/// The encoding of a character other than CR and LF holds no CR or LF byte.
proof fn lemma_scalar_no_breaks(c: char)
    requires
        c != '\r',
        c != '\n',
    ensures
        no_break_bytes(vstd::utf8::encode_scalar(c as u32)),
        vstd::utf8::encode_scalar(c as u32).len() > 0,
{
    let x = c as u32;
    lemma_high_bytes(x);
    if vstd::utf8::has_width_1_encoding(x) {
        assert((x & 0x7F) as u8 == x as u8 && (x as u8 == 10u8 ==> x == 10) && (x as u8 == 13u8 ==> x == 13)) by (bit_vector)
            requires
                x <= 0x7F,
        ;
    }
}

/// The encoding of a text without line breaks holds no CR or LF byte, and
/// is empty only when the text is.
pub proof fn lemma_encode_no_breaks(a: Seq<char>)
    requires
        no_line_breaks(a),
    ensures
        no_break_bytes(vstd::utf8::encode_utf8(a)),
        vstd::utf8::encode_utf8(a).len() == 0 <==> a.len() == 0,
    decreases a.len(),
{
    if a.len() > 0 {
        assert(a[0] != '\r' && a[0] != '\n');
        lemma_scalar_no_breaks(a[0]);
        assert(no_line_breaks(a.drop_first())) by {
            assert forall|i: int| 0 <= i < a.drop_first().len() implies #[trigger] a.drop_first()[i] != '\r'
                && a.drop_first()[i] != '\n' by {
                assert(a.drop_first()[i] == a[i + 1]);
            }
        }
        lemma_encode_no_breaks(a.drop_first());
        let e0 = vstd::utf8::encode_scalar(a[0] as u32);
        let er = vstd::utf8::encode_utf8(a.drop_first());
        assert(vstd::utf8::encode_utf8(a) == e0 + er);
        assert forall|i: int| 0 <= i < (e0 + er).len() implies !is_line_break(#[trigger] (e0 + er)[i]) by {
            if i < e0.len() {
                assert((e0 + er)[i] == e0[i]);
            } else {
                assert((e0 + er)[i] == er[i - e0.len()]);
            }
        }
    }
}

/// A run without line breaks extends the current line.
pub proof fn lemma_lines_from_run(run: Seq<u8>, rest: Seq<u8>, cur: Seq<u8>)
    requires
        no_break_bytes(run),
    ensures
        lines_from(run + rest, cur) == lines_from(rest, cur + run),
    decreases run.len(),
{
    if run.len() == 0 {
        assert(run + rest =~= rest);
        assert(cur + run =~= cur);
    } else {
        let s = run + rest;
        assert(s[0] == run[0]);
        assert(!is_line_break(run[0]));
        assert(s.drop_first() =~= run.drop_first() + rest);
        assert(no_break_bytes(run.drop_first())) by {
            assert forall|i: int| 0 <= i < run.drop_first().len() implies !is_line_break(#[trigger] run.drop_first()[i]) by {
                assert(run.drop_first()[i] == run[i + 1]);
            }
        }
        lemma_lines_from_run(run.drop_first(), rest, cur.push(run[0]));
        assert(cur.push(run[0]) + run.drop_first() =~= cur + run);
    }
}

/// A line break ends the current line, if one was begun.
pub proof fn lemma_lines_from_break(b: u8, rest: Seq<u8>, cur: Seq<u8>)
    requires
        is_line_break(b),
    ensures
        lines_from(seq![b] + rest, cur) == (if cur.len() > 0 { seq![cur] } else { Seq::<Seq<u8>>::empty() })
            + lines_from(rest, seq![]),
{
    let s = seq![b] + rest;
    assert(s[0] == b);
    assert(s.drop_first() =~= rest);
}

/// Three non-empty texts without line breaks, joined by CR LF, are read back
/// as three lines holding their encodings.
pub proof fn lemma_three_lines(a: Seq<char>, b: Seq<char>, c: Seq<char>)
    requires
        no_line_breaks(a),
        no_line_breaks(b),
        no_line_breaks(c),
        a.len() > 0,
        b.len() > 0,
        c.len() > 0,
    ensures
        lines(vstd::utf8::encode_utf8(a + "\r\n"@ + b + "\r\n"@ + c)) == seq![
            vstd::utf8::encode_utf8(a),
            vstd::utf8::encode_utf8(b),
            vstd::utf8::encode_utf8(c),
        ],
{
    reveal_strlit("\r\n");
    let crlf = "\r\n"@;
    assert(crlf =~= seq!['\r', '\n']);
    let ea = encode_utf8(a);
    let eb = encode_utf8(b);
    let ec = encode_utf8(c);
    let br: Seq<u8> = seq![13u8, 10u8];
    assert(encode_utf8(crlf) =~= br) by {
        assert(crlf.drop_first() =~= seq!['\n']);
        assert(crlf.drop_first().drop_first() =~= Seq::<char>::empty());
        assert(('\r' as u32) == 13u32 && ('\n' as u32) == 10u32);
        assert((13u32 & 0x7F) as u8 == 13u8 && (10u32 & 0x7F) as u8 == 10u8) by (bit_vector);
        let rest = crlf.drop_first();
        assert(encode_utf8(rest.drop_first()) =~= Seq::<u8>::empty());
        assert(encode_utf8(rest) =~= seq![10u8]);
        assert(encode_utf8(crlf) =~= seq![13u8] + encode_utf8(rest));
    }
    lemma_encode_concat(a + crlf + b + crlf, c);
    lemma_encode_concat(a + crlf + b, crlf);
    lemma_encode_concat(a + crlf, b);
    lemma_encode_concat(a, crlf);
    lemma_encode_no_breaks(a);
    lemma_encode_no_breaks(b);
    lemma_encode_no_breaks(c);
    let whole = ea + br + eb + br + ec;
    assert(encode_utf8(a + crlf + b + crlf + c) =~= whole);
    let after_a = seq![13u8] + (seq![10u8] + (eb + (seq![13u8] + (seq![10u8] + ec))));
    assert(whole =~= ea + after_a);
    lemma_lines_from_run(ea, after_a, seq![]);
    assert(Seq::<u8>::empty() + ea =~= ea);
    lemma_lines_from_break(13u8, seq![10u8] + (eb + (seq![13u8] + (seq![10u8] + ec))), ea);
    lemma_lines_from_break(10u8, eb + (seq![13u8] + (seq![10u8] + ec)), seq![]);
    lemma_lines_from_run(eb, seq![13u8] + (seq![10u8] + ec), seq![]);
    assert(Seq::<u8>::empty() + eb =~= eb);
    lemma_lines_from_break(13u8, seq![10u8] + ec, eb);
    lemma_lines_from_break(10u8, ec, seq![]);
    lemma_lines_from_run(ec, Seq::<u8>::empty(), seq![]);
    assert(ec + Seq::<u8>::empty() =~= ec);
    assert(Seq::<u8>::empty() + ec =~= ec);
    assert(lines_from(Seq::<u8>::empty(), ec) == seq![ec]);
    assert(lines(whole) =~= seq![ea, eb, ec]);
}

} // verus!

verus! {

/// Every line of a buffer is non-empty and holds no line break.
pub proof fn lemma_lines_are_clean(s: Seq<u8>)
    ensures
        forall|i: int| 0 <= i < lines(s).len() ==> #[trigger] lines(s)[i].len() > 0 && no_break_bytes(lines(s)[i]),
{
    lemma_lines_from_clean(s, seq![]);
}

proof fn lemma_lines_from_clean(s: Seq<u8>, cur: Seq<u8>)
    requires
        no_break_bytes(cur),
    ensures
        forall|i: int| 0 <= i < lines_from(s, cur).len() ==> #[trigger] lines_from(s, cur)[i].len() > 0
            && no_break_bytes(lines_from(s, cur)[i]),
    decreases s.len(),
{
    if s.len() == 0 {
        if cur.len() > 0 {
            assert(lines_from(s, cur) == seq![cur]);
            assert(seq![cur][0] == cur);
        }
    } else if is_line_break(s[0]) {
        lemma_lines_from_clean(s.drop_first(), seq![]);
        let head: Seq<Seq<u8>> = if cur.len() > 0 { seq![cur] } else { Seq::empty() };
        let tail = lines_from(s.drop_first(), seq![]);
        assert(lines_from(s, cur) == head + tail);
        if cur.len() > 0 {
            assert(head[0] == cur);
        }
        assert forall|i: int| 0 <= i < (head + tail).len() implies #[trigger] (head + tail)[i].len() > 0
            && no_break_bytes((head + tail)[i]) by {
            if i >= head.len() {
                assert((head + tail)[i] == tail[i - head.len()]);
            }
        }
    } else {
        let next = cur.push(s[0]);
        assert forall|j: int| 0 <= j < next.len() implies !is_line_break(#[trigger] next[j]) by {
            if j < cur.len() {
                assert(next[j] == cur[j]);
            }
        }
        lemma_lines_from_clean(s.drop_first(), next);
        assert(lines_from(s, cur) == lines_from(s.drop_first(), next));
    }
}


/// The bytes of a buffer other than carriage returns and line feeds, in
/// order.
pub open spec fn without_breaks(s: Seq<u8>) -> Seq<u8>
    decreases s.len(),
{
    if s.len() == 0 {
        s
    } else if is_line_break(s.last()) {
        without_breaks(s.drop_last())
    } else {
        without_breaks(s.drop_last()).push(s.last())
    }
}

/// The lines one after the other, with nothing between them.
pub open spec fn joined(ls: Seq<Seq<u8>>) -> Seq<u8>
    decreases ls.len(),
{
    if ls.len() == 0 {
        Seq::empty()
    } else {
        joined(ls.drop_last()) + ls.last()
    }
}

proof fn lemma_joined_append(a: Seq<Seq<u8>>, b: Seq<Seq<u8>>)
    ensures
        joined(a + b) == joined(a) + joined(b),
    decreases b.len(),
{
    if b.len() == 0 {
        assert(a + b =~= a);
        assert(joined(a) + Seq::<u8>::empty() =~= joined(a));
    } else {
        assert((a + b).drop_last() =~= a + b.drop_last());
        assert((a + b).last() == b.last());
        lemma_joined_append(a, b.drop_last());
        assert(joined(a) + joined(b.drop_last()) + b.last() =~= joined(a) + (joined(b.drop_last()) + b.last()));
    }
}

proof fn lemma_without_breaks_prepend(x: u8, s: Seq<u8>)
    ensures
        without_breaks(seq![x] + s) == (if is_line_break(x) { Seq::<u8>::empty() } else { seq![x] }) + without_breaks(s),
    decreases s.len(),
{
    let t = seq![x] + s;
    if s.len() == 0 {
        assert(t.drop_last() =~= Seq::<u8>::empty());
        assert(t.last() == x);
        assert(without_breaks(Seq::<u8>::empty()) == Seq::<u8>::empty());
        assert(without_breaks(s) == Seq::<u8>::empty());
        assert(Seq::<u8>::empty().push(x) =~= seq![x]);
        assert(seq![x] + Seq::<u8>::empty() =~= seq![x]);
        assert(Seq::<u8>::empty() + Seq::<u8>::empty() =~= Seq::<u8>::empty());
        if is_line_break(x) {
            assert(without_breaks(t) == without_breaks(t.drop_last()));
        } else {
            assert(without_breaks(t) == without_breaks(t.drop_last()).push(x));
        }
    } else {
        assert(t.drop_last() =~= seq![x] + s.drop_last());
        assert(t.last() == s.last());
        lemma_without_breaks_prepend(x, s.drop_last());
        let h: Seq<u8> = if is_line_break(x) { Seq::<u8>::empty() } else { seq![x] };
        assert((h + without_breaks(s.drop_last())).push(s.last()) =~= h + without_breaks(s.drop_last()).push(s.last()));
        if is_line_break(s.last()) {
            assert(without_breaks(t) == without_breaks(t.drop_last()));
            assert(without_breaks(s) == without_breaks(s.drop_last()));
        } else {
            assert(without_breaks(t) == without_breaks(t.drop_last()).push(s.last()));
            assert(without_breaks(s) == without_breaks(s.drop_last()).push(s.last()));
        }
    }
}

proof fn lemma_lines_from_keep_bytes(s: Seq<u8>, cur: Seq<u8>)
    ensures
        joined(lines_from(s, cur)) == cur + without_breaks(s),
    decreases s.len(),
{
    let e = Seq::<Seq<u8>>::empty();
    if s.len() == 0 {
        assert(cur + s =~= cur);
        if cur.len() > 0 {
            assert(seq![cur].drop_last() =~= e);
            assert(joined(e) == Seq::<u8>::empty());
            assert(seq![cur].last() == cur);
            assert(Seq::<u8>::empty() + cur =~= cur);
            assert(joined(seq![cur]) == joined(e) + cur);
        }
    } else {
        lemma_without_breaks_prepend(s[0], s.drop_first());
        assert(seq![s[0]] + s.drop_first() =~= s);
        if is_line_break(s[0]) {
            lemma_lines_from_keep_bytes(s.drop_first(), seq![]);
            let head: Seq<Seq<u8>> = if cur.len() > 0 { seq![cur] } else { e };
            lemma_joined_append(head, lines_from(s.drop_first(), seq![]));
            if cur.len() > 0 {
                assert(seq![cur].drop_last() =~= e);
                assert(joined(e) == Seq::<u8>::empty());
                assert(seq![cur].last() == cur);
                assert(Seq::<u8>::empty() + cur =~= cur);
                assert(joined(seq![cur]) == joined(e) + cur);
            }
            assert(Seq::<u8>::empty() + without_breaks(s.drop_first()) =~= without_breaks(s.drop_first()));
            assert(joined(head) + without_breaks(s.drop_first()) =~= cur + (Seq::<u8>::empty() + without_breaks(s.drop_first())));
        } else {
            lemma_lines_from_keep_bytes(s.drop_first(), cur.push(s[0]));
            assert(cur.push(s[0]) + without_breaks(s.drop_first()) =~= cur + (seq![s[0]] + without_breaks(s.drop_first())));
        }
    }
}

/// Splitting into lines loses no byte and adds none: the lines one after
/// the other are the buffer without its carriage returns and line feeds.
pub proof fn lemma_lines_keep_every_other_byte(s: Seq<u8>)
    ensures
        joined(lines(s)) == without_breaks(s),
{
    lemma_lines_from_keep_bytes(s, seq![]);
    assert(Seq::<u8>::empty() + without_breaks(s) =~= without_breaks(s));
}

/// A buffer without line breaks is a single line, or no line when empty.
pub proof fn lemma_lines_of_one_run(s: Seq<u8>)
    requires
        no_break_bytes(s),
    ensures
        lines(s) == (if s.len() > 0 { seq![s] } else { Seq::<Seq<u8>>::empty() }),
{
    lemma_lines_from_run(s, Seq::empty(), seq![]);
    assert(s + Seq::<u8>::empty() =~= s);
    assert(Seq::<u8>::empty() + s =~= s);
}

} // verus!
