//! Reading AD3: Atomic Data as lines of JSON arrays.
use vstd::prelude::*;
use crate::atom::{Atom, atoms_view};
use crate::errors::{AtomicError, AtomicResult, ErrorView};
use crate::json::{json_string_array, parse_json_array};
use crate::text::{chars_of, lemma_split_on_len, split_char, split_on, strip_cr, without_trailing_cr};

verus! {

/// What one AD3 line holds: nothing (an empty line, or one starting with
/// `#` or a space), or an atom written as a JSON array of three strings.
pub open spec fn ad3_line(line: Seq<char>) -> Result<Option<(Seq<char>, Seq<char>, Seq<char>)>, ErrorView> {
    if line.len() == 0 || line[0] == '#' || line[0] == ' ' {
        Ok(None)
    } else if line[0] == '[' {
        match json_string_array(line) {
            None => Err(ErrorView::NotAJsonArray(line)),
            Some(v) => if v.len() != 3 {
                Err(ErrorView::Ad3WrongLength(line))
            } else {
                Ok(Some((v[0], v[1], v[2])))
            },
        }
    } else {
        Err(ErrorView::Ad3UnexpectedLine(line))
    }
}

/// The lines of a text as `str::lines` gives them: cut at `\n`, each line
/// that a `\n` ends losing one trailing `\r`.
pub open spec fn text_lines(text: Seq<char>) -> Seq<Seq<char>> {
    let pieces = split_on(text, '\n');
    Seq::new(pieces.len(), |i: int| if i + 1 < pieces.len() { strip_cr(pieces[i]) } else { pieces[i] })
}

/// The atoms of AD3 lines, in order, or the error of the first bad line.
pub open spec fn ad3_atoms(lines: Seq<Seq<char>>) -> Result<Seq<(Seq<char>, Seq<char>, Seq<char>)>, ErrorView>
    decreases lines.len(),
{
    if lines.len() == 0 {
        Ok(Seq::empty())
    } else {
        match ad3_atoms(lines.drop_last()) {
            Err(e) => Err(e),
            Ok(atoms) => match ad3_line(lines.last()) {
                Err(e) => Err(e),
                Ok(None) => Ok(atoms),
                Ok(Some(a)) => Ok(atoms.push(a)),
            },
        }
    }
}

proof fn lemma_ad3_atoms_err(lines: Seq<Seq<char>>, k: int)
    requires
        0 <= k <= lines.len(),
        ad3_atoms(lines.take(k)) is Err,
    ensures
        ad3_atoms(lines) == ad3_atoms(lines.take(k)),
    decreases lines.len(),
{
    if k < lines.len() {
        assert(lines.drop_last().take(k) =~= lines.take(k));
        lemma_ad3_atoms_err(lines.drop_last(), k);
    } else {
        assert(lines.take(k) =~= lines);
    }
}

/// The view of the result of reading atoms.
pub open spec fn atoms_result_view(r: AtomicResult<Vec<Atom>>) -> Result<Seq<(Seq<char>, Seq<char>, Seq<char>)>, ErrorView> {
    match r {
        Ok(v) => Ok(atoms_view(v@)),
        Err(e) => Err(e@),
    }
}

/// Reads AD3 text: every line that is not empty and does not start with `#`
/// or a space must be a JSON array of subject, property and value.
pub fn parse_ad3(text: &str) -> (r: AtomicResult<Vec<Atom>>)
    ensures
        atoms_result_view(r) == ad3_atoms(text_lines(text@)),
{
    let pieces = split_char(text, '\n');
    let ghost ps = split_on(text@, '\n');
    let ghost lines = text_lines(text@);
    let n = pieces.len();
    let mut atoms: Vec<Atom> = Vec::new();
    assert(lines.take(0) =~= Seq::<Seq<char>>::empty());
    assert(atoms_view(atoms@) =~= Seq::<(Seq<char>, Seq<char>, Seq<char>)>::empty());
    let mut i: usize = 0;
    while i < n
        invariant
            n == pieces@.len(),
            ps == pieces@.map_values(|p: String| p@),
            lines == text_lines(text@),
            ps == split_on(text@, '\n'),
            lines.len() == n,
            i <= n,
            ad3_atoms(lines.take(i as int)) == Ok::<Seq<(Seq<char>, Seq<char>, Seq<char>)>, ErrorView>(atoms_view(atoms@)),
        decreases n - i,
    {
        assert(lines.take(i + 1).drop_last() =~= lines.take(i as int));
        assert(lines.take(i + 1).last() == lines[i as int]);
        let line = if i + 1 < n {
            without_trailing_cr(pieces[i].as_str())
        } else {
            pieces[i].clone()
        };
        assert(line@ == lines[i as int]);
        let chars = chars_of(line.as_str());
        if chars.len() == 0 || chars[0] == '#' || chars[0] == ' ' {
            i = i + 1;
            continue;
        }
        if chars[0] != '[' {
            proof {
                lemma_ad3_atoms_err(lines, i + 1);
            }
            return Err(AtomicError::Ad3UnexpectedLine(line));
        }
        let v = match parse_json_array(line.as_str()) {
            Ok(v) => v,
            Err(_) => {
                proof {
                    lemma_ad3_atoms_err(lines, i + 1);
                }
                return Err(AtomicError::NotAJsonArray(line));
            },
        };
        if v.len() != 3 {
            proof {
                lemma_ad3_atoms_err(lines, i + 1);
            }
            return Err(AtomicError::Ad3WrongLength(line));
        }
        let ghost before = atoms_view(atoms@);
        let a = Atom::new(v[0].clone(), v[1].clone(), v[2].clone());
        atoms.push(a);
        assert(atoms_view(atoms@) =~= before.push(a@));
        i = i + 1;
    }
    proof {
        lemma_split_on_len(text@, '\n');
    }
    assert(lines.take(n as int) =~= lines);
    Ok(atoms)
}

/// Appending text without separators extends the last piece.
pub proof fn lemma_split_on_append(t: Seq<char>, line: Seq<char>, sep: char)
    requires
        !line.contains(sep),
    ensures
        split_on(t + line, sep) == split_on(t, sep).update(
            split_on(t, sep).len() - 1,
            split_on(t, sep).last() + line,
        ),
    decreases line.len(),
{
    lemma_split_on_len(t, sep);
    if line.len() == 0 {
        assert(t + line =~= t);
        assert(split_on(t, sep).last() + line =~= split_on(t, sep).last());
        assert(split_on(t, sep).update(split_on(t, sep).len() - 1, split_on(t, sep).last()) =~= split_on(t, sep));
    } else {
        let init = line.drop_last();
        assert(!init.contains(sep)) by {
            if init.contains(sep) {
                let k = choose|k: int| 0 <= k < init.len() && init[k] == sep;
                assert(line[k] == sep);
            }
        }
        lemma_split_on_append(t, init, sep);
        assert((t + line).drop_last() =~= t + init);
        assert((t + line).last() == line.last());
        assert(line.last() != sep) by {
            assert(line[line.len() - 1] == line.last());
        }
        lemma_split_on_len(t + init, sep);
        assert(split_on(t, sep).last() + init + seq![line.last()] =~= split_on(t, sep).last() + line) by {
            assert(init.push(line.last()) =~= line);
        }
        let p = split_on(t, sep);
        assert(split_on(t + line, sep) =~= p.update(p.len() - 1, p.last() + line));
    }
}

/// Writing a line and a line feed after text that ends a line adds that
/// line, followed by an empty last line, to the text's lines.
pub proof fn lemma_text_lines_step(t: Seq<char>, line: Seq<char>)
    requires
        t.len() == 0 || t.last() == '\n',
        !line.contains('\n'),
        line.len() > 0,
        line.last() != '\r',
    ensures
        text_lines(t).len() >= 1,
        text_lines(t).last() == Seq::<char>::empty(),
        text_lines(t + line + seq!['\n']) == text_lines(t).drop_last().push(line).push(Seq::<char>::empty()),
        (t + line + seq!['\n']).last() == '\n',
{
    lemma_split_on_len(t, '\n');
    let p = split_on(t, '\n');
    if t.len() == 0 {
        assert(p =~= seq![Seq::<char>::empty()]);
    } else {
        assert(t.drop_last().push(t.last()) =~= t);
    }
    assert(p.last() == Seq::<char>::empty());
    lemma_split_on_append(t, line, '\n');
    let q = split_on(t + line, '\n');
    assert(q =~= p.drop_last().push(line)) by {
        assert(p.last() + line =~= line);
    }
    let t2 = t + line + seq!['\n'];
    assert(t2.drop_last() =~= t + line);
    let r = split_on(t2, '\n');
    assert(r =~= q.push(Seq::<char>::empty()));
    let lines_t = text_lines(t);
    let lines_2 = text_lines(t2);
    assert(strip_cr(line) == line);
    assert(lines_2 =~= lines_t.drop_last().push(line).push(Seq::<char>::empty()));
}

/// An empty last line adds no atoms; a line that holds an atom adds it.
pub proof fn lemma_ad3_atoms_step(x: Seq<Seq<char>>, line: Seq<char>, a: (Seq<char>, Seq<char>, Seq<char>))
    requires
        ad3_line(line) == Ok::<Option<(Seq<char>, Seq<char>, Seq<char>)>, ErrorView>(Some(a)),
        ad3_atoms(x) is Ok,
    ensures
        ad3_atoms(x.push(Seq::<char>::empty())) == ad3_atoms(x),
        ad3_atoms(x.push(line).push(Seq::<char>::empty())) == Ok::<Seq<(Seq<char>, Seq<char>, Seq<char>)>, ErrorView>(ad3_atoms(x)->Ok_0.push(a)),
{
    assert(x.push(Seq::<char>::empty()).drop_last() =~= x);
    assert(x.push(line).push(Seq::<char>::empty()).drop_last() =~= x.push(line));
    assert(x.push(line).drop_last() =~= x);
    assert(x.push(line).last() == line);
    assert(ad3_line(Seq::<char>::empty()) == Ok::<Option<(Seq<char>, Seq<char>, Seq<char>)>, ErrorView>(None));
    assert(ad3_atoms(x.push(line)) == Ok::<Seq<(Seq<char>, Seq<char>, Seq<char>)>, ErrorView>(ad3_atoms(x)->Ok_0.push(a)));
}

} // verus!
