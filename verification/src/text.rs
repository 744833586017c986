use vstd::prelude::*;
use vstd::string::StringExecFns;
use vstd::utf8::{decode_utf8, valid_utf8};

use crate::hex::push_char;

verus! {

/// The texts of a list of strings.
pub open spec fn texts(lines: Seq<String>) -> Seq<Seq<char>> {
    lines.map_values(|l: String| l@)
}

/// The line separator used on the wire: carriage return, line feed.
pub open spec fn crlf() -> Seq<char> {
    seq!['\r', '\n']
}

/// The lines joined with `sep` between each two of them.
pub open spec fn join_lines(lines: Seq<Seq<char>>, sep: Seq<char>) -> Seq<char>
    decreases lines.len(),
{
    if lines.len() == 0 {
        Seq::empty()
    } else if lines.len() == 1 {
        lines[0]
    } else {
        join_lines(lines.drop_last(), sep) + sep + lines.last()
    }
}

/// A line without the one carriage return that may end it.
pub open spec fn strip_cr(line: Seq<char>) -> Seq<char> {
    if line.len() > 0 && line.last() == '\r' {
        line.drop_last()
    } else {
        line
    }
}

/// Reading `s` from the start: the lines ended so far, each without its line feed
/// and without a carriage return before it, and the text of the line not yet ended.
pub open spec fn scan_lines(s: Seq<char>) -> (Seq<Seq<char>>, Seq<char>)
    decreases s.len(),
{
    if s.len() == 0 {
        (Seq::empty(), Seq::empty())
    } else {
        let (done, cur) = scan_lines(s.drop_last());
        if s.last() == '\n' {
            (done.push(strip_cr(cur)), Seq::empty())
        } else {
            (done, cur.push(s.last()))
        }
    }
}

/// The lines of a text, as `str::lines` splits it: at each line feed, dropping a
/// carriage return right before it, with no empty line after a final line feed.
pub open spec fn split_lines(s: Seq<char>) -> Seq<Seq<char>> {
    let (done, cur) = scan_lines(s);
    if cur.len() == 0 {
        done
    } else {
        done.push(cur)
    }
}

/// Lines that survive being joined and split again: none holds a line feed, and
/// the last one is not empty.
pub open spec fn transmittable(lines: Seq<Seq<char>>) -> bool {
    &&& forall|i: int| 0 <= i < lines.len() ==> !(#[trigger] lines[i]).contains('\n')
    &&& (lines.len() == 0 || lines.last().len() > 0)
}

/// `String::from_utf8` from std: the text that `bytes` encode in UTF-8, or `None`
/// when they are not valid UTF-8.
#[verifier::external_body]
pub(crate) fn utf8_to_string(bytes: Vec<u8>) -> (res: Option<String>)
    ensures
        match res {
            Some(s) => valid_utf8(bytes@) && s@ == decode_utf8(bytes@),
            None => !valid_utf8(bytes@),
        },
{
    String::from_utf8(bytes).ok()
}

/// The lines joined with `\r\n` between each two of them.
pub fn join_crlf(lines: &Vec<String>) -> (s: String)
    ensures
        s@ == join_lines(texts(lines@), crlf()),
{
    let mut s = String::new();
    let mut i: usize = 0;
    while i < lines.len()
        invariant
            i <= lines.len(),
            s@ == join_lines(texts(lines@).take(i as int), crlf()),
        decreases lines.len() - i,
    {
        let ghost before = s@;
        if i > 0 {
            push_char(&mut s, '\r');
            push_char(&mut s, '\n');
        }
        s.append(lines[i].as_str());
        proof {
            let t = texts(lines@).take(i + 1);
            assert(t.drop_last() =~= texts(lines@).take(i as int));
            if i == 0 {
                assert(s@ =~= t[0]);
            } else {
                assert(s@ =~= before + crlf() + t.last());
            }
        }
        i = i + 1;
    }
    proof {
        assert(texts(lines@).take(lines.len() as int) =~= texts(lines@));
    }
    s
}

/// The lines of `text`, as `str::lines` gives them.
pub fn split_lines_of(text: &str) -> (lines: Vec<String>)
    ensures
        texts(lines@) == split_lines(text@),
{
    let mut done: Vec<String> = Vec::new();
    let mut cur = String::new();
    let mut pending_cr = false;
    let ghost mut seen: Seq<char> = Seq::empty();
    for c in iter: text.chars()
        invariant
            seen == iter.seq().take(iter.index() as int),
            texts(done@) == scan_lines(seen).0,
            (if pending_cr { cur@.push('\r') } else { cur@ }) == scan_lines(seen).1,
            !pending_cr ==> (cur@.len() == 0 || cur@.last() != '\r'),
    {
        proof {
            assert(seen.push(c).drop_last() =~= seen);
        }
        if c == '\n' {
            let ghost old_done = done@;
            let ghost pending_cr_before = pending_cr;
            let ghost cur_before = cur@;
            done.push(cur);
            cur = String::new();
            pending_cr = false;
            proof {
                assert(texts(done@) =~= texts(old_done).push(done@.last()@));
                if pending_cr_before {
                    assert(strip_cr(cur_before.push('\r')) =~= cur_before);
                }
            }
        } else if c == '\r' {
            if pending_cr {
                push_char(&mut cur, '\r');
            }
            pending_cr = true;
        } else {
            if pending_cr {
                push_char(&mut cur, '\r');
            }
            push_char(&mut cur, c);
            pending_cr = false;
        }
        proof {
            seen = seen.push(c);
        }
    }
    if pending_cr {
        push_char(&mut cur, '\r');
    }
    proof {
        assert(seen =~= text@);
    }
    if !cur.as_str().is_empty() {
        done.push(cur);
    }
    done
}

proof fn lemma_scan_plain(p: Seq<char>, x: Seq<char>)
    requires
        !x.contains('\n'),
    ensures
        scan_lines(p + x) == (scan_lines(p).0, scan_lines(p).1 + x),
    decreases x.len(),
{
    if x.len() == 0 {
        assert(p + x =~= p);
        assert(scan_lines(p).1 + x =~= scan_lines(p).1);
    } else {
        let y = x.drop_last();
        assert(!y.contains('\n')) by {
            if y.contains('\n') {
                let k = choose|k: int| 0 <= k < y.len() && y[k] == '\n';
                assert(x[k] == '\n');
            }
        }
        lemma_scan_plain(p, y);
        assert((p + x).drop_last() =~= p + y);
        assert(x.last() != '\n') by {
            assert(x[x.len() - 1] == x.last());
        }
        assert((p + x).last() == x.last());
        assert(scan_lines(p).1 + y.push(x.last()) =~= scan_lines(p).1 + x);
        assert(y.push(x.last()) =~= x);
        assert((scan_lines(p).1 + y).push(x.last()) =~= scan_lines(p).1 + x);
    }
}

proof fn lemma_scan_crlf(p: Seq<char>)
    ensures
        scan_lines(p + crlf()) == (scan_lines(p).0.push(scan_lines(p).1), Seq::<char>::empty()),
{
    let cr = seq!['\r'];
    assert(!cr.contains('\n')) by {
        if cr.contains('\n') {
            let k = choose|k: int| 0 <= k < cr.len() && cr[k] == '\n';
            assert(cr[0] == '\r');
        }
    }
    lemma_scan_plain(p, cr);
    assert((p + crlf()).drop_last() =~= p + cr);
    assert((p + crlf()).last() == '\n');
    assert(strip_cr(scan_lines(p).1 + cr) =~= scan_lines(p).1);
}

proof fn lemma_scan_join(lines: Seq<Seq<char>>)
    requires
        lines.len() > 0,
        forall|i: int| 0 <= i < lines.len() ==> !(#[trigger] lines[i]).contains('\n'),
    ensures
        scan_lines(join_lines(lines, crlf())) == (lines.drop_last(), lines.last()),
    decreases lines.len(),
{
    if lines.len() == 1 {
        let e = Seq::<char>::empty();
        assert(!lines[0].contains('\n'));
        lemma_scan_plain(e, lines[0]);
        assert(e + lines[0] =~= lines[0]);
        assert(scan_lines(e) == (Seq::<Seq<char>>::empty(), e));
        assert(lines.drop_last() =~= Seq::<Seq<char>>::empty());
        assert(e + lines[0] =~= lines.last());
    } else {
        let rest = lines.drop_last();
        assert forall|i: int| 0 <= i < rest.len() implies !(#[trigger] rest[i]).contains('\n') by {
            assert(rest[i] == lines[i]);
        }
        lemma_scan_join(rest);
        let p = join_lines(rest, crlf());
        lemma_scan_crlf(p);
        assert(!lines[lines.len() - 1].contains('\n'));
        lemma_scan_plain(p + crlf(), lines.last());
        assert(rest.drop_last().push(rest.last()) =~= rest);
        assert(Seq::<char>::empty() + lines.last() =~= lines.last());
    }
}

/// Joining lines with `\r\n` and splitting the text again gives the lines back,
/// provided none holds a line feed and the last one is not empty.
pub proof fn lemma_lines_roundtrip(lines: Seq<Seq<char>>)
    requires
        transmittable(lines),
    ensures
        split_lines(join_lines(lines, crlf())) == lines,
{
    if lines.len() == 0 {
        assert(scan_lines(Seq::<char>::empty()) == (Seq::<Seq<char>>::empty(), Seq::<char>::empty()));
    } else {
        lemma_scan_join(lines);
        assert(lines.drop_last().push(lines.last()) =~= lines);
    }
}

} // verus!
