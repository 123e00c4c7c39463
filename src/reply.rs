use vstd::prelude::*;
use vstd::std_specs::iter::IteratorSpec;
use vstd::utf8::{decode_utf8, valid_utf8};

verus! {

/// The segments of `s` between newline characters, in order. There is always
/// one more segment than there are newlines; a segment holds no newline.
pub open spec fn segments(s: Seq<char>) -> Seq<Seq<char>>
    decreases s.len(),
{
    if s.len() == 0 {
        seq![Seq::<char>::empty()]
    } else {
        let rest = segments(s.drop_last());
        if s.last() == '\n' {
            rest.push(Seq::<char>::empty())
        } else {
            rest.update(rest.len() - 1, rest.last().push(s.last()))
        }
    }
}

/// A line terminated by a newline loses one carriage return before it.
pub open spec fn strip_cr(line: Seq<char>) -> Seq<char> {
    if line.len() > 0 && line.last() == '\r' {
        line.drop_last()
    } else {
        line
    }
}

/// The lines of `s`: every segment that a newline ends loses a carriage return
/// in front of that newline; the final segment is kept as it is.
pub open spec fn lines_of(s: Seq<char>) -> Seq<Seq<char>> {
    let segs = segments(s);
    segs.drop_last().map_values(|l: Seq<char>| strip_cr(l)).push(segs.last())
}

/// A line survives normalization unless it is empty or the lone sentinel ".".
pub open spec fn is_kept(line: Seq<char>) -> bool {
    line.len() > 0 && line != seq!['.']
}

/// The lines that survive, in the order in which they came.
pub open spec fn kept_lines(lines: Seq<Seq<char>>) -> Seq<Seq<char>>
    decreases lines.len(),
{
    if lines.len() == 0 {
        Seq::<Seq<char>>::empty()
    } else {
        let rest = kept_lines(lines.drop_last());
        if is_kept(lines.last()) {
            rest.push(lines.last())
        } else {
            rest
        }
    }
}

/// The lines joined with a single newline between neighbours, none at the end.
pub open spec fn join_lines(lines: Seq<Seq<char>>) -> Seq<char>
    decreases lines.len(),
{
    if lines.len() == 0 {
        Seq::<char>::empty()
    } else if lines.len() == 1 {
        lines[0]
    } else {
        join_lines(lines.drop_last()) + seq!['\n'] + lines.last()
    }
}

/// The normalized form of a reply text.
pub open spec fn normalized(s: Seq<char>) -> Seq<char> {
    join_lines(kept_lines(lines_of(s)))
}

/// Relies on `String::push`: the character is appended at the end.
#[verifier::external_body]
fn push_char(s: &mut String, c: char)
    ensures
        final(s)@ == old(s)@.push(c),
{
    s.push(c)
}

proof fn lemma_segments_len(s: Seq<char>)
    ensures
        segments(s).len() >= 1,
    decreases s.len(),
{
    if s.len() > 0 {
        lemma_segments_len(s.drop_last());
    }
}

proof fn lemma_kept_all_kept(lines: Seq<Seq<char>>)
    ensures
        forall|i: int| 0 <= i < kept_lines(lines).len() ==> is_kept(#[trigger] kept_lines(lines)[i]),
    decreases lines.len(),
{
    if lines.len() > 0 {
        lemma_kept_all_kept(lines.drop_last());
        let rest = kept_lines(lines.drop_last());
        assert forall|i: int| 0 <= i < kept_lines(lines).len() implies is_kept(
            #[trigger] kept_lines(lines)[i],
        ) by {
            if i < rest.len() {
                assert(kept_lines(lines)[i] == rest[i]);
            }
        }
    }
}

proof fn lemma_join_empty(lines: Seq<Seq<char>>)
    requires
        forall|i: int| 0 <= i < lines.len() ==> (#[trigger] lines[i]).len() > 0,
    ensures
        join_lines(lines).len() == 0 <==> lines.len() == 0,
{
    if lines.len() == 1 {
        assert(lines[0].len() > 0);
    }
}

/// Appends `line` to the reply under construction when it survives.
fn emit_line(out: &mut String, line: &Vec<char>, done: Ghost<Seq<Seq<char>>>)
    requires
        old(out)@ == join_lines(kept_lines(done@)),
    ensures
        final(out)@ == join_lines(kept_lines(done@.push(line@))),
{
    let ghost ls = done@.push(line@);
    proof {
        assert(ls.drop_last() =~= done@);
        lemma_kept_all_kept(done@);
        lemma_join_empty(kept_lines(done@));
    }
    let n = line.len();
    let keep = n > 0 && !(n == 1 && line[0] == '.');
    assert(keep == is_kept(line@)) by {
        if n == 1 && line[0] == '.' {
            assert(line@ =~= seq!['.']);
        }
        if n == 1 && line@ == seq!['.'] {
            assert(line@[0] == '.');
        }
    }
    if !keep {
        return;
    }
    let ghost before = kept_lines(done@);
    let ghost after = before.push(line@);
    assert(after.drop_last() =~= before);
    if !out.as_str().is_empty() {
        push_char(out, '\n');
    }
    let ghost start = out@;
    let mut i: usize = 0;
    while i < n
        invariant
            n == line@.len(),
            i <= n,
            out@ == start + line@.take(i as int),
        decreases n - i,
    {
        push_char(out, line[i]);
        i = i + 1;
        assert(line@.take(i as int) =~= line@.take(i - 1).push(line@[i - 1]));
    }
    assert(line@.take(n as int) =~= line@);
    proof {
        if before.len() == 0 {
            assert(out@ =~= line@);
        } else {
            assert(out@ =~= join_lines(before) + seq!['\n'] + line@);
        }
    }
}

/// Normalizes a reply text: splits it into lines (a carriage return just
/// before a newline belongs to the line ending), drops the empty lines and the
/// sentinel line ".", and joins what is left with single newlines.
pub fn cleanup_reply(reply: String) -> (r: String)
    ensures
        r@ == normalized(reply@),
{
    let ghost text = reply@;
    let mut chars = reply.as_str().chars();
    let mut out = String::new();
    let mut cur: Vec<char> = Vec::new();
    let ghost mut done: Seq<Seq<char>> = Seq::empty();
    let ghost mut i: int = 0;
    proof {
        assert(text.take(0) =~= Seq::<char>::empty());
        assert(text.subrange(0, text.len() as int) =~= text);
        assert(segments(Seq::<char>::empty()).drop_last() =~= Seq::<Seq<char>>::empty());
        assert(Seq::<Seq<char>>::empty().map_values(|l: Seq<char>| strip_cr(l)) =~= Seq::<
            Seq<char>,
        >::empty());
    }
    loop
        invariant_except_break
            out@ == join_lines(kept_lines(done)),
        invariant
            0 <= i <= text.len(),
            chars.obeys_prophetic_iter_laws(),
            chars.remaining() == text.subrange(i, text.len() as int),
            segments(text.take(i)).drop_last().map_values(|l: Seq<char>| strip_cr(l)) == done,
            segments(text.take(i)).last() == cur@,
        ensures
            out@ == normalized(text),
        decreases text.len() - i,
    {
        let ghost segs = segments(text.take(i));
        proof {
            lemma_segments_len(text.take(i));
        }
        let next = chars.next();
        match next {
            Some(c) => {
                let ghost p = text.take(i + 1);
                proof {
                    assert(text[i] == c);
                    assert(p.drop_last() =~= text.take(i));
                    assert(p.last() == c);
                }
                if c == '\n' {
                    let n = cur.len();
                    if n > 0 && cur[n - 1] == '\r' {
                        cur.pop();
                    }
                    assert(cur@ == strip_cr(segs.last()));
                    emit_line(&mut out, &cur, Ghost(done));
                    proof {
                        let nsegs = segments(p);
                        assert(nsegs == segs.push(Seq::<char>::empty()));
                        assert(nsegs.drop_last() =~= segs);
                        assert(segs =~= segs.drop_last().push(segs.last()));
                        assert(segs.map_values(|l: Seq<char>| strip_cr(l)) =~= done.push(cur@));
                        done = done.push(cur@);
                    }
                    cur = Vec::new();
                } else {
                    cur.push(c);
                    proof {
                        let nsegs = segments(p);
                        assert(nsegs.drop_last() =~= segs.drop_last());
                    }
                }
                proof {
                    i = i + 1;
                    assert(text.subrange(i, text.len() as int) =~= text.subrange(
                        i - 1,
                        text.len() as int,
                    ).drop_first());
                }
            },
            None => {
                proof {
                    assert(text.take(i) =~= text);
                    assert(segs =~= segs.drop_last().push(segs.last()));
                }
                emit_line(&mut out, &cur, Ghost(done));
                break;
            },
        }
    }
    out
}

/// The text that lossy UTF-8 decoding makes of `bytes`.
pub uninterp spec fn lossy_text(bytes: Seq<u8>) -> Seq<char>;

/// Relies on `String::from_utf8_lossy`: the bytes decoded as UTF-8, each
/// invalid sequence replaced by U+FFFD; the text depends on the bytes alone,
/// no bytes give the empty text, and valid UTF-8 gives the text it encodes.
#[verifier::external_body]
fn decode_lossy(bytes: &[u8]) -> (r: String)
    ensures
        r@ == lossy_text(bytes@),
        valid_utf8(bytes@) ==> r@ == decode_utf8(bytes@),
        bytes@.len() == 0 ==> r@.len() == 0,
{
    String::from_utf8_lossy(bytes).into_owned()
}

/// Turns the raw bytes of a reply into its normalized text.
pub fn normalize_reply(raw: &Vec<u8>) -> (r: String)
    ensures
        r@ == normalized(lossy_text(raw@)),
        valid_utf8(raw@) ==> r@ == normalized(decode_utf8(raw@)),
        raw@.len() == 0 ==> r@.len() == 0,
{
    let text = decode_lossy(raw.as_slice());
    proof {
        if raw@.len() == 0 {
            assert(text@ =~= Seq::<char>::empty());
            lemma_normalized_empty();
        }
    }
    cleanup_reply(text)
}

proof fn lemma_normalized_empty()
    ensures
        normalized(Seq::<char>::empty()) == Seq::<char>::empty(),
{
    let segs = segments(Seq::<char>::empty());
    assert(segs.drop_last() =~= Seq::<Seq<char>>::empty());
    let ls = lines_of(Seq::<char>::empty());
    assert(ls =~= seq![Seq::<char>::empty()]);
    assert(ls.drop_last() =~= Seq::<Seq<char>>::empty());
    assert(!is_kept(ls.last()));
    assert(kept_lines(ls.drop_last()) =~= Seq::<Seq<char>>::empty());
    assert(kept_lines(ls) =~= Seq::<Seq<char>>::empty());
}

/// The line holds no newline.
pub open spec fn one_line(line: Seq<char>) -> bool {
    forall|k: int| 0 <= k < line.len() ==> line[k] != '\n'
}

/// The line ends in a carriage return.
pub open spec fn ends_with_cr(line: Seq<char>) -> bool {
    line.len() > 0 && line.last() == '\r'
}

proof fn lemma_segments_one_line(s: Seq<char>)
    ensures
        forall|i: int| 0 <= i < segments(s).len() ==> one_line(#[trigger] segments(s)[i]),
    decreases s.len(),
{
    lemma_segments_len(s);
    if s.len() > 0 {
        lemma_segments_one_line(s.drop_last());
        lemma_segments_len(s.drop_last());
        let rest = segments(s.drop_last());
        assert forall|i: int| 0 <= i < segments(s).len() implies one_line(
            #[trigger] segments(s)[i],
        ) by {
            if i < rest.len() - 1 {
                assert(segments(s)[i] == rest[i]);
            } else if i == rest.len() - 1 {
                assert(one_line(rest[i]));
            }
        }
    }
}

proof fn lemma_lines_one_line(s: Seq<char>)
    ensures
        forall|i: int| 0 <= i < lines_of(s).len() ==> one_line(#[trigger] lines_of(s)[i]),
{
    lemma_segments_one_line(s);
    lemma_segments_len(s);
    let segs = segments(s);
    assert forall|i: int| 0 <= i < lines_of(s).len() implies one_line(#[trigger] lines_of(s)[i]) by {
        if i < segs.len() - 1 {
            assert(lines_of(s)[i] == strip_cr(segs[i]));
            assert(one_line(segs[i]));
        } else {
            assert(lines_of(s)[i] == segs[i]);
        }
    }
}

proof fn lemma_kept_one_line(lines: Seq<Seq<char>>)
    requires
        forall|i: int| 0 <= i < lines.len() ==> one_line(#[trigger] lines[i]),
    ensures
        forall|i: int| 0 <= i < kept_lines(lines).len() ==> one_line(#[trigger] kept_lines(lines)[i]),
    decreases lines.len(),
{
    if lines.len() > 0 {
        lemma_kept_one_line(lines.drop_last());
        let rest = kept_lines(lines.drop_last());
        assert forall|i: int| 0 <= i < kept_lines(lines).len() implies one_line(
            #[trigger] kept_lines(lines)[i],
        ) by {
            if i < rest.len() {
                assert(kept_lines(lines)[i] == rest[i]);
            } else {
                assert(one_line(lines[lines.len() - 1]));
            }
        }
    }
}

proof fn lemma_kept_unchanged(lines: Seq<Seq<char>>)
    requires
        forall|i: int| 0 <= i < lines.len() ==> is_kept(#[trigger] lines[i]),
    ensures
        kept_lines(lines) == lines,
    decreases lines.len(),
{
    if lines.len() > 0 {
        lemma_kept_unchanged(lines.drop_last());
        assert(is_kept(lines[lines.len() - 1]));
        assert(lines.drop_last().push(lines.last()) =~= lines);
    }
}

proof fn lemma_segments_single(b: Seq<char>)
    requires
        one_line(b),
    ensures
        segments(b) == seq![b],
    decreases b.len(),
{
    if b.len() > 0 {
        lemma_segments_single(b.drop_last());
        assert(b[b.len() - 1] != '\n');
        assert(b.drop_last().push(b.last()) =~= b);
        assert(segments(b) =~= seq![b]);
    } else {
        assert(b =~= Seq::<char>::empty());
    }
}

proof fn lemma_segments_split(a: Seq<char>, b: Seq<char>)
    ensures
        segments(a + seq!['\n'] + b) == segments(a) + segments(b),
    decreases b.len(),
{
    let x = a + seq!['\n'] + b;
    if b.len() == 0 {
        assert(x.drop_last() =~= a);
        assert(segments(x) =~= segments(a) + segments(b));
    } else {
        lemma_segments_split(a, b.drop_last());
        lemma_segments_len(b.drop_last());
        assert(x.drop_last() =~= a + seq!['\n'] + b.drop_last());
        assert(x.last() == b.last());
        assert(segments(x) =~= segments(a) + segments(b));
    }
}

proof fn lemma_segments_join(lines: Seq<Seq<char>>)
    requires
        lines.len() > 0,
        forall|i: int| 0 <= i < lines.len() ==> one_line(#[trigger] lines[i]),
    ensures
        segments(join_lines(lines)) == lines,
    decreases lines.len(),
{
    if lines.len() == 1 {
        assert(one_line(lines[0]));
        lemma_segments_single(lines[0]);
        assert(lines =~= seq![lines[0]]);
    } else {
        let init = lines.drop_last();
        assert forall|i: int| 0 <= i < init.len() implies one_line(#[trigger] init[i]) by {
            assert(init[i] == lines[i]);
        }
        lemma_segments_join(init);
        assert(one_line(lines[lines.len() - 1]));
        lemma_segments_single(lines.last());
        lemma_segments_split(join_lines(init), lines.last());
        assert(init + seq![lines.last()] =~= lines);
    }
}

/// Normalizing a normalized reply changes nothing: its lines all survive and
/// are read back as they were. This holds whenever no surviving line but the
/// last ends in a carriage return; such a line, once followed by a newline,
/// would lose that carriage return on the second pass.
pub proof fn lemma_normalized_idempotent(s: Seq<char>)
    requires
        forall|i: int|
            0 <= i < kept_lines(lines_of(s)).len() - 1 ==> !ends_with_cr(
                #[trigger] kept_lines(lines_of(s))[i],
            ),
    ensures
        normalized(normalized(s)) == normalized(s),
{
    let k = kept_lines(lines_of(s));
    let out = join_lines(k);
    lemma_kept_all_kept(lines_of(s));
    lemma_lines_one_line(s);
    lemma_kept_one_line(lines_of(s));
    if k.len() == 0 {
        assert(out == Seq::<char>::empty());
        lemma_normalized_empty();
    } else {
        lemma_segments_join(k);
        let segs = segments(out);
        assert(segs == k);
        assert(lines_of(out) =~= k) by {
            assert forall|i: int| 0 <= i < k.len() - 1 implies strip_cr(#[trigger] k[i]) == k[i] by {
                assert(!ends_with_cr(k[i]));
            }
        }
        lemma_kept_unchanged(k);
    }
}

} // verus!
