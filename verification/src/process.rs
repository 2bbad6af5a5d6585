//! What other programs report.

use vstd::prelude::*;

use crate::decode;
use crate::text;

verus! {

/// What a program that ran to its end left behind.
#[derive(Debug)]
pub struct CommandOutput {
    /// The program reported success.
    pub success: bool,
    /// What it wrote to its standard output.
    pub stdout: Vec<u8>,
    /// What it wrote to its standard error.
    pub stderr: Vec<u8>,
}

/// A program's output, as contracts speak of it.
pub struct Output {
    /// The program reported success.
    pub success: bool,
    /// What it wrote to its standard output.
    pub stdout: Seq<u8>,
    /// What it wrote to its standard error.
    pub stderr: Seq<u8>,
}

impl View for CommandOutput {
    type V = Output;

    open spec fn view(&self) -> Output {
        Output { success: self.success, stdout: self.stdout@, stderr: self.stderr@ }
    }
}

/// An output is whether the program succeeded, and what it wrote to either stream.
pub proof fn law_output_view(output: CommandOutput)
    ensures
        output@.success == output.success,
        output@.stdout == output.stdout@,
        output@.stderr == output.stderr@,
{
}

/// The names in a list that commas separate: the pieces that are not empty, each without white
/// space at its ends.
pub open spec fn listed_names(list: Seq<char>) -> Seq<Seq<char>> {
    text::pieces(text::trimmed(list), ',').filter(|piece: Seq<char>| piece.len() > 0).map_values(
        |piece: Seq<char>| text::trimmed(piece),
    )
}

/// The dependencies that a run of modinfo reports; a run that failed, or could not be started,
/// reports none.
pub open spec fn reported_deps(output: Option<Output>) -> Seq<Seq<char>> {
    match output {
        Some(run) => if run.success {
            listed_names(decode::lossy_text(run.stdout))
        } else {
            Seq::empty()
        },
        None => Seq::empty(),
    }
}

/// A list holds what stands between its commas: each part that is not empty gives a name,
/// which is the part without white space at its ends. White space round the whole list counts
/// for nothing.
pub proof fn law_listed_parts(front: Seq<char>, parts: Seq<Seq<char>>, back: Seq<char>)
    requires
        text::is_blank(front),
        text::is_blank(back),
        parts.len() > 0,
        forall|i: int| 0 <= i < parts.len() ==> !#[trigger] parts[i].contains(','),
        text::joined(parts, ","@).len() > 0 ==> {
            &&& !text::is_white_space(text::joined(parts, ","@)[0])
            &&& !text::is_white_space(text::joined(parts, ","@).last())
        },
    ensures
        listed_names(front + text::joined(parts, ","@) + back) == parts.filter(
            |part: Seq<char>| part != Seq::<char>::empty(),
        ).map_values(|part: Seq<char>| text::trimmed(part)),
{
    let core = text::joined(parts, ","@);
    let list = front + core + back;
    reveal_strlit(",");
    assert(","@ =~= seq![',']);
    text::law_joined_pieces(parts, ',');
    if core.len() > 0 {
        text::law_trimmed(front, core, back);
    } else {
        assert(text::is_blank(list));
        text::law_trimmed_splits(list);
        if text::trimmed(list).len() > 0 {
            let (a, b) = choose|a: Seq<char>, b: Seq<char>| #[trigger]
                text::is_blank(a) && #[trigger] text::is_blank(b) && list == a + text::trimmed(list)
                    + b;
            assert(list[a.len() as int] == text::trimmed(list)[0]);
        }
        assert(text::trimmed(list) =~= core);
    }
    let kept = |piece: Seq<char>| piece.len() > 0;
    let same = |part: Seq<char>| part != Seq::<char>::empty();
    assert forall|part: Seq<char>| #[trigger] kept(part) == same(part) by {
        if part.len() == 0 {
            assert(part =~= Seq::<char>::empty());
        }
    }
    assert(kept =~= same);
}

/// A list of names with commas between them, with any white space round the commas and round
/// the whole, gives exactly these names.
pub proof fn law_listed_names(
    front: Seq<char>,
    before: Seq<Seq<char>>,
    names: Seq<Seq<char>>,
    after: Seq<Seq<char>>,
    back: Seq<char>,
)
    requires
        text::is_blank(front),
        text::is_blank(back),
        names.len() > 0,
        before.len() == names.len(),
        after.len() == names.len(),
        before[0].len() == 0,
        after[names.len() - 1].len() == 0,
        forall|i: int|
            0 <= i < names.len() ==> {
                &&& text::is_blank(#[trigger] before[i])
                &&& text::is_blank(after[i])
            },
        forall|i: int|
            0 <= i < names.len() ==> {
                &&& (#[trigger] names[i]).len() > 0
                &&& !names[i].contains(',')
                &&& !text::is_white_space(names[i][0])
                &&& !text::is_white_space(names[i].last())
            },
    ensures
        listed_names(
            front + text::joined(
                Seq::new(names.len(), |i: int| before[i] + names[i] + after[i]),
                ","@,
            ) + back,
        ) == names,
{
    let parts = Seq::new(names.len(), |i: int| before[i] + names[i] + after[i]);
    let last = names.len() - 1;
    let keep = |part: Seq<char>| part != Seq::<char>::empty();
    assert forall|i: int| #![trigger parts[i]] 0 <= i < parts.len() implies {
        &&& !parts[i].contains(',')
        &&& keep(parts[i])
        &&& text::trimmed(parts[i]) == names[i]
    } by {
        assert(parts[i].len() >= names[i].len());
        text::law_trimmed(before[i], names[i], after[i]);
        assert forall|j: int| 0 <= j < parts[i].len() implies parts[i][j] != ',' by {
            let (a, b) = (before[i].len(), names[i].len());
            if j < a {
                assert(text::is_white_space(before[i][j]));
            } else if j < a + b {
                assert(names[i].contains(names[i][j - a]));
            } else {
                assert(text::is_white_space(after[i][j - a - b]));
            }
        }
    }
    assert(parts[0][0] == names[0][0]);
    assert(parts[last].last() == names[last].last());
    text::lemma_joined_ends(parts, ","@);
    law_listed_parts(front, parts, back);
    text::lemma_filter_all(parts, keep);
    assert(parts.map_values(|part: Seq<char>| text::trimmed(part)) =~= names);
}

/// Names that are joined by commas, with any white space behind, come back as they are.
pub proof fn law_names_read_back(names: Seq<Seq<char>>, back: Seq<char>)
    requires
        text::is_blank(back),
        names.len() > 0,
        forall|i: int|
            0 <= i < names.len() ==> {
                &&& (#[trigger] names[i]).len() > 0
                &&& !names[i].contains(',')
                &&& !text::is_white_space(names[i][0])
                &&& !text::is_white_space(names[i].last())
            },
    ensures
        listed_names(text::joined(names, ","@) + back) == names,
{
    let none = Seq::new(names.len(), |i: int| Seq::<char>::empty());
    law_listed_names(Seq::empty(), none, names, none, back);
    let parts = Seq::new(names.len(), |i: int| none[i] + names[i] + none[i]);
    assert forall|i: int| 0 <= i < names.len() implies #[trigger] parts[i] == names[i] by {
        assert(parts[i] =~= names[i]);
    }
    assert(parts =~= names);
    assert(Seq::empty() + text::joined(names, ","@) + back =~= text::joined(names, ","@) + back);
}

/// No name in a list has white space at its ends, or a comma in it.
pub proof fn law_listed_names_are_clean(list: Seq<char>, i: int)
    requires
        0 <= i < listed_names(list).len(),
    ensures
        !listed_names(list)[i].contains(','),
        listed_names(list)[i].len() > 0 ==> {
            &&& !text::is_white_space(listed_names(list)[i][0])
            &&& !text::is_white_space(listed_names(list)[i].last())
        },
{
    let pieces = text::pieces(text::trimmed(list), ',');
    let kept = |piece: Seq<char>| piece.len() > 0;
    let piece = pieces.filter(kept)[i];
    let name = listed_names(list)[i];
    text::law_pieces_join(text::trimmed(list), ',');
    assert(pieces.filter(kept).contains(piece));
    pieces.lemma_filter_contains_rev(kept, piece);
    let k = choose|k: int| 0 <= k < pieces.len() && pieces[k] == piece;
    assert(!pieces[k].contains(','));
    text::law_trimmed_splits(piece);
    let (a, b) = choose|a: Seq<char>, b: Seq<char>| #[trigger]
        text::is_blank(a) && #[trigger] text::is_blank(b) && piece == a + text::trimmed(piece) + b;
    assert(name == text::trimmed(piece));
    assert forall|j: int| 0 <= j < name.len() implies name[j] != ',' by {
        assert(piece[a.len() + j] == name[j]);
        assert(piece.contains(piece[a.len() + j]));
    }
}

/// A run of modinfo that printed names with commas between them, and a line feed or other white
/// space behind, reports exactly these names; a run that failed, or did not take place, none.
pub proof fn law_reported_names(names: Seq<Seq<char>>, back: Seq<char>, run: Output)
    requires
        text::is_blank(back),
        names.len() > 0,
        forall|i: int|
            0 <= i < names.len() ==> {
                &&& (#[trigger] names[i]).len() > 0
                &&& !names[i].contains(',')
                &&& !text::is_white_space(names[i][0])
                &&& !text::is_white_space(names[i].last())
            },
    ensures
        run.success && run.stdout == vstd::utf8::encode_utf8(text::joined(names, ","@) + back)
            ==> reported_deps(Some(run)) == names,
        run.success && run.stdout == vstd::utf8::encode_utf8(back) ==> reported_deps(Some(run))
            == Seq::<Seq<char>>::empty(),
        run.success ==> reported_deps(Some(run)) == listed_names(decode::lossy_text(run.stdout)),
        !run.success ==> reported_deps(Some(run)) == Seq::<Seq<char>>::empty(),
        reported_deps(None) == Seq::<Seq<char>>::empty(),
{
    let list = text::joined(names, ","@) + back;
    law_names_read_back(names, back);
    vstd::utf8::encode_utf8_valid_utf8(list);
    vstd::utf8::encode_utf8_decode_utf8(list);
    vstd::utf8::encode_utf8_valid_utf8(back);
    vstd::utf8::encode_utf8_decode_utf8(back);
    let nothing = seq![Seq::<char>::empty()];
    law_listed_parts(Seq::empty(), nothing, back);
    assert(Seq::empty() + text::joined(nothing, ","@) + back =~= back);
    let keep = |part: Seq<char>| part != Seq::<char>::empty();
    assert(nothing.filter(keep) =~= Seq::<Seq<char>>::empty()) by {
        reveal(Seq::filter);
        assert(nothing.drop_last() =~= Seq::<Seq<char>>::empty());
        assert(nothing.drop_last().filter(keep) =~= Seq::<Seq<char>>::empty());
    }
    assert(listed_names(back) =~= Seq::<Seq<char>>::empty());
}

/// The names in a list that commas separate.
pub fn parse_names(list: &str) -> (names: Vec<String>)
    ensures
        text::views(names@) == listed_names(list@),
{
    let parts = text::split(text::trim(list), ',');
    let ghost all = text::views(parts@);
    let ghost kept = |piece: Seq<char>| piece.len() > 0;
    let ghost trim = |piece: Seq<char>| text::trimmed(piece);
    let mut names: Vec<String> = Vec::new();
    let mut i: usize = 0;
    assert(text::views(names@) =~= all.take(0).filter(kept).map_values(trim)) by {
        reveal(Seq::filter);
    }
    while i < parts.len()
        invariant
            i <= parts@.len(),
            all == text::views(parts@),
            kept == (|piece: Seq<char>| piece.len() > 0),
            trim == (|piece: Seq<char>| text::trimmed(piece)),
            text::views(names@) == all.take(i as int).filter(kept).map_values(trim),
        decreases parts@.len() - i,
    {
        let ghost done = text::views(names@);
        let ghost before = all.take(i as int);
        let part: &str = parts[i].as_str();
        proof {
            assert(all.take(i + 1) =~= before.push(part@));
            before.lemma_filter_push(part@, kept);
        }
        if !part.is_empty() {
            names.push(text::trim(part).to_owned());
            assert(text::views(names@) =~= done.push(text::trimmed(part@)));
            assert(text::views(names@) =~= all.take(i + 1).filter(kept).map_values(trim));
        }
        i = i + 1;
    }
    assert(all.take(i as int) =~= all);
    names
}

/// The dependencies of a module, from a run of modinfo on it.
pub fn get_module_deps_from_modinfo(output: Option<&CommandOutput>) -> (deps: Vec<String>)
    ensures
        text::views(deps@) == reported_deps(
            match output {
                Some(run) => Some(run@),
                None => None,
            },
        ),
        output matches Some(run) ==> run.success && vstd::utf8::valid_utf8(run.stdout@)
            ==> text::views(deps@) == listed_names(vstd::utf8::decode_utf8(run.stdout@)),
        output matches Some(run) ==> run.success ==> text::views(deps@) == listed_names(
            decode::lossy_text(run.stdout@),
        ),
        output matches Some(run) ==> !run.success ==> deps@.len() == 0,
        output is None ==> deps@.len() == 0,
{
    match output {
        Some(run) => {
            if run.success {
                let list: String = decode::decode_lossy(run.stdout.as_slice());
                return parse_names(list.as_str());
            }
        },
        None => {},
    }
    let none: Vec<String> = Vec::new();
    assert(text::views(none@) =~= Seq::<Seq<char>>::empty());
    none
}

} // verus!
