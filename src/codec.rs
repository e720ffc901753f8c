use vstd::prelude::*;
use vstd::utf8::{decode_utf8, valid_utf8};
use vstd::string::StrSliceExecFns;
use vstd::string::StringExecFns;
use string_join::Join;
use crate::model::{Note, NoteView};

verus! {

/// The lines of a text: the pieces between newline characters. A text
/// without a newline is one line; a trailing newline ends in an empty line.
pub open spec fn lines_of(s: Seq<char>) -> Seq<Seq<char>>
    decreases s.len(),
{
    if s.len() == 0 {
        seq![Seq::empty()]
    } else {
        let p = lines_of(s.drop_last());
        if s.last() == '\n' {
            p.push(Seq::empty())
        } else {
            p.update(p.len() - 1, p.last().push(s.last()))
        }
    }
}

/// The lines put back together, one newline character between neighbours.
pub open spec fn joined(ls: Seq<Seq<char>>) -> Seq<char>
    decreases ls.len(),
{
    if ls.len() == 0 {
        Seq::empty()
    } else if ls.len() == 1 {
        ls[0]
    } else {
        joined(ls.drop_last()) + seq!['\n'] + ls.last()
    }
}

/// The lines without the empty lines that lead them.
pub open spec fn skip_blank(ls: Seq<Seq<char>>) -> Seq<Seq<char>>
    decreases ls.len(),
{
    if ls.len() > 0 && ls[0].len() == 0 {
        skip_blank(ls.drop_first())
    } else {
        ls
    }
}

/// The file text of a note: the title, a blank line, the body and a newline.
pub open spec fn encoded(n: NoteView) -> Seq<char> {
    n.0 + seq!['\n', '\n'] + n.1 + seq!['\n']
}

/// The note that a file text holds: with more than one line, the first line
/// is the title and the rest, leading blank lines skipped, is the body; a
/// text of one line is all body, under an empty title.
pub open spec fn decoded(text: Seq<char>) -> NoteView {
    let ls = lines_of(text);
    if ls.len() > 1 {
        (ls[0], joined(skip_blank(ls.drop_first())))
    } else {
        (Seq::empty(), text)
    }
}

/// Why a file could not be read as a note.
#[derive(Clone, Copy, Debug, PartialEq, Eq)]
pub enum DecodeError {
    /// The bytes are not UTF-8 text.
    NotText,
}

/// Relies on `string_join::Join::join`, called on "\n": it writes the first
/// part, then "\n" and the next part for each one after it.
#[verifier::external_body]
fn join_lines(parts: &Vec<String>) -> (r: String)
    ensures
        r@ == joined(parts@.map_values(|p: String| p@)),
{
    "\n".join(parts)
}

/// Relies on `String::from_utf8`: it accepts exactly the valid UTF-8 byte
/// sequences, and the text holds the characters they encode.
#[verifier::external_body]
fn utf8_text(bytes: &Vec<u8>) -> (r: Option<String>)
    ensures
        r is Some <==> valid_utf8(bytes@),
        r matches Some(s) ==> s@ == decode_utf8(bytes@),
{
    String::from_utf8(bytes.clone()).ok()
}

/// The file text of a note.
pub fn encode(note: &Note) -> (r: String)
    ensures
        r@ == encoded(note@),
{
    let mut s = String::new();
    s.append(note.title.as_str());
    proof {
        reveal_strlit("\n\n");
        reveal_strlit("\n");
    }
    s.append("\n\n");
    s.append(note.body.as_str());
    s.append("\n");
    s
}

/// The text split at each newline character.
fn split_lines(text: &str) -> (r: Vec<String>)
    ensures
        r@.map_values(|p: String| p@) == lines_of(text@),
{
    let n = text.unicode_len();
    let mut pieces: Vec<String> = Vec::new();
    let mut start: usize = 0;
    let mut i: usize = 0;
    assert(text@.take(0) =~= Seq::<char>::empty());
    assert(pieces@.map_values(|p: String| p@).push(text@.subrange(0, 0)) =~= seq![
        Seq::<char>::empty(),
    ]);
    while i < n
        invariant
            n == text@.len(),
            start <= i <= n,
            lines_of(text@.take(i as int)) == pieces@.map_values(|p: String| p@).push(
                text@.subrange(start as int, i as int),
            ),
        decreases n - i,
    {
        let c = text.get_char(i);
        let ghost pv = pieces@.map_values(|p: String| p@);
        let ghost cur = text@.subrange(start as int, i as int);
        let ghost t1 = text@.take(i + 1);
        assert(t1.drop_last() =~= text@.take(i as int));
        assert(t1.last() == c);
        if c == '\n' {
            let piece = text.substring_char(start, i).to_owned();
            pieces.push(piece);
            assert(pieces@.map_values(|p: String| p@) =~= pv.push(cur));
            start = i + 1;
            assert(text@.subrange(start as int, i + 1) =~= Seq::<char>::empty());
            assert(lines_of(t1) == pv.push(cur).push(Seq::<char>::empty()));
        } else {
            assert(text@.subrange(start as int, i + 1) =~= cur.push(c));
            assert(pv.push(cur).update(pv.len() as int, cur.push(c)) =~= pv.push(cur.push(c)));
        }
        i = i + 1;
    }
    let last = text.substring_char(start, n).to_owned();
    pieces.push(last);
    assert(text@.take(n as int) =~= text@);
    assert(pieces@.map_values(|p: String| p@) =~= lines_of(text@.take(n as int)));
    pieces
}

/// The note that a text holds.
pub fn decode_text(text: &str) -> (r: Note)
    ensures
        r@ == decoded(text@),
{
    let lines = split_lines(text);
    let ghost ls = lines@.map_values(|p: String| p@);
    if lines.len() > 1 {
        let mut k: usize = 1;
        while k < lines.len() && lines[k].as_str().unicode_len() == 0
            invariant
                1 <= k <= lines.len(),
                ls == lines@.map_values(|p: String| p@),
                skip_blank(ls.drop_first()) == skip_blank(ls.subrange(k as int, ls.len() as int)),
            decreases lines.len() - k,
        {
            assert(ls.subrange(k as int, ls.len() as int).drop_first() == ls.subrange(
                k + 1,
                ls.len() as int,
            ));
            k = k + 1;
        }
        assert(skip_blank(ls.subrange(k as int, ls.len() as int)) == ls.subrange(
            k as int,
            ls.len() as int,
        ));
        let mut rest: Vec<String> = Vec::new();
        let mut j: usize = k;
        while j < lines.len()
            invariant
                k <= j <= lines.len(),
                ls == lines@.map_values(|p: String| p@),
                rest@.map_values(|p: String| p@) == ls.subrange(k as int, j as int),
            decreases lines.len() - j,
        {
            rest.push(lines[j].clone());
            assert(ls.subrange(k as int, j + 1) == ls.subrange(k as int, j as int).push(ls[j as int]));
            j = j + 1;
        }
        assert(ls.subrange(k as int, ls.len() as int) == ls.subrange(k as int, j as int));
        let body = join_lines(&rest);
        Note { title: lines[0].clone(), body }
    } else {
        Note { title: String::new(), body: text.to_owned() }
    }
}

/// The note that a file's bytes hold, or `NotText` where they are not UTF-8.
pub fn decode(bytes: &Vec<u8>) -> (r: Result<Note, DecodeError>)
    ensures
        r is Ok <==> valid_utf8(bytes@),
        r matches Ok(n) ==> n@ == decoded(decode_utf8(bytes@)),
        r matches Err(e) ==> e == DecodeError::NotText,
{
    match utf8_text(bytes) {
        Some(text) => Ok(decode_text(text.as_str())),
        None => Err(DecodeError::NotText),
    }
}

proof fn lemma_lines_nonempty(s: Seq<char>)
    ensures
        lines_of(s).len() >= 1,
    decreases s.len(),
{
    if s.len() > 0 {
        lemma_lines_nonempty(s.drop_last());
    }
}

proof fn lemma_lines_single(a: Seq<char>)
    requires
        !a.contains('\n'),
    ensures
        lines_of(a) == seq![a],
    decreases a.len(),
{
    if a.len() == 0 {
        assert(a =~= Seq::<char>::empty());
        assert(lines_of(a) =~= seq![a]);
    } else {
        let p = a.drop_last();
        assert(!p.contains('\n')) by {
            if p.contains('\n') {
                let i = choose|i: int| 0 <= i < p.len() && p[i] == '\n';
                assert(a[i] == '\n');
            }
        }
        lemma_lines_single(p);
        assert(a.last() != '\n') by {
            if a.last() == '\n' {
                assert(a[a.len() - 1] == '\n');
            }
        }
        assert(p.push(a.last()) =~= a);
        assert(lines_of(a) =~= seq![a]);
    }
}

proof fn lemma_lines_split(a: Seq<char>, b: Seq<char>)
    ensures
        lines_of(a + seq!['\n'] + b) == lines_of(a) + lines_of(b),
    decreases b.len(),
{
    let s = a + seq!['\n'] + b;
    lemma_lines_nonempty(a);
    if b.len() == 0 {
        assert(s.drop_last() =~= a);
        assert(lines_of(s) =~= lines_of(a) + lines_of(b));
    } else {
        let b0 = b.drop_last();
        lemma_lines_split(a, b0);
        lemma_lines_nonempty(b0);
        assert(s.drop_last() =~= a + seq!['\n'] + b0);
        assert(s.last() == b.last());
        assert(lines_of(s) =~= lines_of(a) + lines_of(b));
    }
}

proof fn lemma_joined_push(ls: Seq<Seq<char>>, x: Seq<char>)
    requires
        ls.len() >= 1,
    ensures
        joined(ls.push(x)) == joined(ls) + seq!['\n'] + x,
{
    assert(ls.push(x).drop_last() =~= ls);
}

proof fn lemma_joined_lines(s: Seq<char>)
    ensures
        joined(lines_of(s)) == s,
    decreases s.len(),
{
    if s.len() == 0 {
        assert(joined(lines_of(s)) =~= s);
    } else {
        let p = s.drop_last();
        let ls = lines_of(p);
        assert(p.push(s.last()) =~= s);
        lemma_joined_lines(p);
        lemma_lines_nonempty(p);
        if s.last() == '\n' {
            lemma_joined_push(ls, Seq::empty());
        } else {
            let u = ls.update(ls.len() - 1, ls.last().push(s.last()));
            if ls.len() == 1 {
                assert(u.len() == 1);
                assert(joined(u) == u[0]);
                assert(joined(ls) == ls[0]);
                assert(u[0] == ls[0].push(s.last()));
                assert(joined(u) =~= s);
            } else {
                assert(u.drop_last() =~= ls.drop_last());
                assert(joined(u) =~= s);
            }
        }
    }
}

proof fn lemma_first_line_nonempty(s: Seq<char>)
    requires
        s.len() > 0,
        s[0] != '\n',
    ensures
        lines_of(s)[0].len() > 0,
    decreases s.len(),
{
    let p = s.drop_last();
    lemma_lines_nonempty(p);
    if p.len() == 0 {
        assert(lines_of(p) =~= seq![Seq::<char>::empty()]);
    } else {
        lemma_first_line_nonempty(p);
    }
}

proof fn lemma_decoded_encoded(n: NoteView)
    requires
        !n.0.contains('\n'),
    ensures
        n.1.len() == 0 ==> decoded(encoded(n)) == n,
        n.1.len() > 0 && n.1[0] != '\n' ==> decoded(encoded(n)) == (n.0, n.1 + seq!['\n']),
{
    let e: Seq<char> = Seq::empty();
    let tail = n.1 + seq!['\n'] + e;
    assert(encoded(n) =~= n.0 + seq!['\n'] + (e + seq!['\n'] + tail));
    lemma_lines_split(n.0, e + seq!['\n'] + tail);
    lemma_lines_split(e, tail);
    lemma_lines_split(n.1, e);
    lemma_lines_single(n.0);
    let lb = lines_of(n.1);
    lemma_lines_nonempty(n.1);
    let ls = lines_of(encoded(n));
    assert(ls =~= seq![n.0] + seq![e] + lb + seq![e]);
    assert(ls.len() > 1);
    let d = ls.drop_first();
    let d1 = lb + seq![e];
    assert(d =~= seq![e] + d1);
    assert(d[0].len() == 0);
    assert(d.drop_first() =~= d1);
    assert(skip_blank(d) == skip_blank(d1));
    assert(decoded(encoded(n)) == (ls[0], joined(skip_blank(d))));
    if n.1.len() == 0 {
        assert(n.1 =~= e);
        assert(lb =~= seq![e]);
        assert(d1 =~= seq![e, e]);
        assert(d1[0].len() == 0);
        assert(d1.drop_first() =~= seq![e]);
        assert(skip_blank(d1) == skip_blank(seq![e]));
        assert(seq![e].drop_first() =~= Seq::<Seq<char>>::empty());
        assert(skip_blank(seq![e]) == skip_blank(Seq::<Seq<char>>::empty()));
        assert(skip_blank(d1) =~= Seq::<Seq<char>>::empty());
        assert(joined(skip_blank(d1)) =~= n.1);
    } else if n.1[0] != '\n' {
        lemma_first_line_nonempty(n.1);
        lemma_joined_lines(n.1);
        lemma_joined_push(lb, e);
        assert(lb.push(e) =~= d1);
        assert(d1[0].len() > 0);
        assert(skip_blank(d1) == d1);
        assert(joined(d1) =~= n.1 + seq!['\n']);
    }
}

/// A note with a single-line title and an empty body reads back from its
/// file text unchanged.
pub proof fn lemma_round_trip(n: NoteView)
    requires
        !n.0.contains('\n'),
        n.1.len() == 0,
    ensures
        decoded(encoded(n)) == n,
{
    lemma_decoded_encoded(n);
}

/// A note with a single-line title and a body that does not start with a
/// blank line reads back from its file text with the same title, and with
/// the body followed by the newline that ends the file.
pub proof fn lemma_read_back(n: NoteView)
    requires
        !n.0.contains('\n'),
        n.1.len() > 0,
        n.1[0] != '\n',
    ensures
        decoded(encoded(n)) == (n.0, n.1 + seq!['\n']),
{
    lemma_decoded_encoded(n);
}

} // verus!
