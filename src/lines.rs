use vstd::prelude::*;

verus! {

/// The pieces of `s` between newline characters, in order; `s` with `k`
/// newlines has `k + 1` pieces.
pub open spec fn split_newlines(s: Seq<char>) -> Seq<Seq<char>>
    decreases s.len(),
{
    if s.len() == 0 {
        seq![Seq::<char>::empty()]
    } else {
        let parts = split_newlines(s.drop_last());
        if s.last() == '\n' {
            parts.push(Seq::<char>::empty())
        } else {
            parts.update(parts.len() - 1, parts.last().push(s.last()))
        }
    }
}

/// A line that ended in `"\r\n"` loses its carriage return.
pub open spec fn strip_cr(l: Seq<char>) -> Seq<char> {
    if l.len() > 0 && l.last() == '\r' {
        l.drop_last()
    } else {
        l
    }
}

/// The lines of a text: a line ends at `'\n'` or at `"\r\n"`, and the last
/// line needs no line ending (an empty last piece is no line).
pub open spec fn lines_of(s: Seq<char>) -> Seq<Seq<char>> {
    let parts = split_newlines(s);
    let ended = parts.drop_last().map_values(|l: Seq<char>| strip_cr(l));
    if parts.last().len() == 0 {
        ended
    } else {
        ended.push(parts.last())
    }
}

proof fn lemma_split_nonempty(s: Seq<char>)
    ensures
        split_newlines(s).len() >= 1,
    decreases s.len(),
{
    if s.len() > 0 {
        lemma_split_nonempty(s.drop_last());
    }
}

/// Relies on String::push: it appends one character to the string.
#[verifier::external_body]
fn push_char(s: &mut String, c: char)
    ensures
        final(s)@ == old(s)@.push(c),
{
    s.push(c);
}

/// Splits a text into its lines, as `lines_of` states.
pub fn split_lines(text: &str) -> (r: Vec<String>)
    ensures
        r.deep_view() == lines_of(text@),
{
    let mut lines: Vec<String> = Vec::new();
    let mut cur = String::new();
    let mut pending_cr = false;
    let ghost mut parts: Seq<Seq<char>> = seq![Seq::<char>::empty()];
    for c in it: text.chars()
        invariant
            it.seq() == text@,
            parts == split_newlines(text@.take(it.index() as int)),
            parts.len() >= 1,
            lines.deep_view() == parts.drop_last().map_values(|l: Seq<char>| strip_cr(l)),
            pending_cr ==> parts.last() == cur@.push('\r'),
            !pending_cr ==> parts.last() == cur@,
            !pending_cr ==> (cur@.len() == 0 || cur@.last() != '\r'),
    {
        let ghost before = text@.take(it.index() as int);
        proof {
            lemma_split_nonempty(before);
            assert(text@.take(it.index() + 1).drop_last() =~= before);
            assert(text@.take(it.index() + 1).last() == c);
        }
        if c == '\n' {
            let line = cur;
            proof {
                assert(strip_cr(parts.last()) == line@);
                assert(parts.push(Seq::<char>::empty()).drop_last() =~= parts);
                assert(parts.drop_last().push(parts.last()) =~= parts);
                assert(parts.map_values(|l: Seq<char>| strip_cr(l)) =~= parts.drop_last().map_values(
                    |l: Seq<char>| strip_cr(l),
                ).push(strip_cr(parts.last())));
            }
            lines.push(line);
            proof {
                assert(lines.deep_view() =~= ended_lines(parts).push(line@));
            }
            cur = String::new();
            pending_cr = false;
            proof {
                parts = parts.push(Seq::<char>::empty());
            }
        } else {
            if pending_cr {
                push_char(&mut cur, '\r');
            }
            if c == '\r' {
                pending_cr = true;
            } else {
                push_char(&mut cur, c);
                pending_cr = false;
            }
            proof {
                let next = parts.update(parts.len() - 1, parts.last().push(c));
                assert(next.drop_last() =~= parts.drop_last());
                parts = next;
            }
        }
    }
    proof {
        lemma_split_nonempty(text@);
        assert(text@.take(text@.len() as int) =~= text@);
    }
    if pending_cr {
        push_char(&mut cur, '\r');
    }
    if cur.as_str().unicode_len() > 0 {
        let ghost before = lines.deep_view();
        lines.push(cur);
        proof {
            assert(lines.deep_view() =~= before.push(parts.last()));
        }
    }
    lines
}

/// The lines of all pieces but the last, which each ended at a newline.
spec fn ended_lines(parts: Seq<Seq<char>>) -> Seq<Seq<char>> {
    parts.drop_last().map_values(|l: Seq<char>| strip_cr(l))
}

} // verus!
