//! Standings as comma-separated text: a header line, then one line for each
//! entry.

use vstd::prelude::*;
use vstd::string::*;
use crate::delimited::{append_part, free_of, join, lemma_join_free, lemma_split_join, split};
use crate::stats::{records, TeamStats};

verus! {

/// The names of the twelve columns, in the order of an entry's fields.
pub open spec fn column_names() -> Seq<Seq<char>> {
    seq![
        "Position"@,
        "Team"@,
        "Played"@,
        "Wins"@,
        "Losses"@,
        "Sets For"@,
        "Sets Against"@,
        "Sets Difference"@,
        "Points For"@,
        "Points Against"@,
        "Points Quotient"@,
        "Points"@,
    ]
}

/// The header line, without its line end.
pub open spec fn header_line() -> Seq<char> {
    join(column_names(), ',')
}

/// The line of each record, without its line end.
pub open spec fn data_lines(records: Seq<Seq<Seq<char>>>) -> Seq<Seq<char>> {
    Seq::new(records.len(), |i: int| join(records[i], ','))
}

/// The lines one after the other, each followed by a line feed.
pub open spec fn lines_text(lines: Seq<Seq<char>>) -> Seq<char>
    decreases lines.len(),
{
    if lines.len() == 0 {
        Seq::empty()
    } else {
        lines_text(lines.drop_last()) + lines.last().push('\n')
    }
}

/// The whole text for a table of records: the header line, then the data
/// lines.
pub open spec fn csv_text(records: Seq<Seq<Seq<char>>>) -> Seq<char> {
    header_line().push('\n') + lines_text(data_lines(records))
}

/// The header line, without its line end. It is the same for every table.
pub fn header() -> (line: String)
    ensures
        line@ == header_line(),
{
    let mut line = String::from_str("Position");
    let ghost mut parts = seq!["Position"@];
    append_part(&mut line, "Team", Ghost(parts));
    proof { parts = parts.push("Team"@); }
    append_part(&mut line, "Played", Ghost(parts));
    proof { parts = parts.push("Played"@); }
    append_part(&mut line, "Wins", Ghost(parts));
    proof { parts = parts.push("Wins"@); }
    append_part(&mut line, "Losses", Ghost(parts));
    proof { parts = parts.push("Losses"@); }
    append_part(&mut line, "Sets For", Ghost(parts));
    proof { parts = parts.push("Sets For"@); }
    append_part(&mut line, "Sets Against", Ghost(parts));
    proof { parts = parts.push("Sets Against"@); }
    append_part(&mut line, "Sets Difference", Ghost(parts));
    proof { parts = parts.push("Sets Difference"@); }
    append_part(&mut line, "Points For", Ghost(parts));
    proof { parts = parts.push("Points For"@); }
    append_part(&mut line, "Points Against", Ghost(parts));
    proof { parts = parts.push("Points Against"@); }
    append_part(&mut line, "Points Quotient", Ghost(parts));
    proof { parts = parts.push("Points Quotient"@); }
    append_part(&mut line, "Points", Ghost(parts));
    proof {
        parts = parts.push("Points"@);
        assert(parts =~= column_names());
    }
    line
}

/// Writes the table behind what `writer` already holds: the header line, then
/// one line for each entry in the order given, every line ended by a line
/// feed. Fields are written as they are, with nothing quoted or escaped.
pub fn save_csv(teams: &[TeamStats], writer: &mut String)
    ensures
        final(writer)@ == old(writer)@ + csv_text(records(teams@)),
{
    proof {
        reveal_strlit("\n");
        assert("\n"@ =~= seq!['\n']);
    }
    let head = header();
    writer.append(head.as_str());
    writer.append("\n");
    assert(writer@ =~= old(writer)@ + header_line().push('\n'));
    let ghost all = data_lines(records(teams@));
    let mut i: usize = 0;
    while i < teams.len()
        invariant
            i <= teams.len(),
            all == data_lines(records(teams@)),
            "\n"@ == seq!['\n'],
            writer@ == old(writer)@ + header_line().push('\n') + lines_text(
                all.subrange(0, i as int),
            ),
        decreases teams.len() - i,
    {
        let line = teams[i].csv_line();
        writer.append(line.as_str());
        writer.append("\n");
        proof {
            let done = all.subrange(0, i + 1);
            assert(done.drop_last() =~= all.subrange(0, i as int));
            assert(done.last() == line@);
            assert(writer@ =~= old(writer)@ + header_line().push('\n') + lines_text(done));
        }
        i = i + 1;
    }
    proof {
        assert(all.subrange(0, i as int) =~= all);
        assert(writer@ =~= old(writer)@ + csv_text(records(teams@)));
    }
}

/// No column name holds a comma or a line feed.
pub proof fn lemma_column_names_plain()
    ensures
        column_names().len() == 12,
        free_of(column_names(), ','),
        free_of(column_names(), '\n'),
{
    reveal_strlit("Position");
    reveal_strlit("Team");
    reveal_strlit("Played");
    reveal_strlit("Wins");
    reveal_strlit("Losses");
    reveal_strlit("Sets For");
    reveal_strlit("Sets Against");
    reveal_strlit("Sets Difference");
    reveal_strlit("Points For");
    reveal_strlit("Points Against");
    reveal_strlit("Points Quotient");
    reveal_strlit("Points");
}

/// The header line splits at its commas into the twelve column names.
pub proof fn lemma_header_columns()
    ensures
        split(header_line(), ',') == column_names(),
        !header_line().contains('\n'),
{
    lemma_column_names_plain();
    lemma_split_join(column_names(), ',');
    lemma_join_free(column_names(), ',', '\n');
}

/// Whatever the records are, the text begins with the same header line and
/// its line feed.
pub proof fn lemma_header_fixed(records: Seq<Seq<Seq<char>>>)
    ensures
        csv_text(records).len() >= header_line().len() + 1,
        csv_text(records).subrange(0, header_line().len() as int + 1) == header_line().push(
            '\n',
        ),
        csv_text(Seq::empty()) == header_line().push('\n'),
{
    let head = header_line().push('\n');
    assert(csv_text(records).subrange(0, head.len() as int) =~= head);
    assert(data_lines(Seq::empty()) =~= Seq::<Seq<char>>::empty());
    assert(csv_text(Seq::empty()) =~= head);
}

/// A line of an entry whose fields hold no comma splits at its commas into
/// those fields.
pub proof fn lemma_line_round_trip(team: TeamStats)
    requires
        free_of(team@, ','),
    ensures
        split(join(team@, ','), ',') == team@,
{
    lemma_split_join(team@, ',');
}

/// Lines that are each ended by a line feed are the lines joined by line
/// feeds, with an empty piece behind the last.
pub proof fn lemma_lines_text_is_join(lines: Seq<Seq<char>>)
    ensures
        lines_text(lines) == join(lines.push(Seq::empty()), '\n'),
    decreases lines.len(),
{
    let empty = Seq::<char>::empty();
    if lines.len() == 0 {
        assert(lines.push(empty)[0] == empty);
    } else {
        let init = lines.drop_last();
        let last = lines.last();
        lemma_lines_text_is_join(init);
        assert(lines.push(empty).drop_last() =~= lines);
        assert(join(lines.push(empty), '\n') =~= join(lines, '\n').push('\n'));
        assert(init.push(empty).drop_last() =~= init);
        if init.len() == 0 {
            assert(join(init.push(empty), '\n') =~= empty);
            assert(join(lines, '\n') == last);
            assert(lines_text(lines) =~= join(lines, '\n').push('\n'));
        } else {
            assert(join(init.push(empty), '\n') =~= join(init, '\n').push('\n'));
            assert(join(lines, '\n') == join(init, '\n').push('\n') + last);
            assert(lines_text(lines) =~= join(lines, '\n').push('\n'));
        }
    }
}

/// Reading the text back. Where no field holds a comma or a line feed, the
/// text splits at its line feeds into the header line, one line for each
/// record in order, and an empty piece behind the last line feed; and every
/// data line splits at its commas into the fields of its record.
pub proof fn lemma_csv_round_trip(records: Seq<Seq<Seq<char>>>)
    requires
        forall|i: int| 0 <= i < records.len() ==> (#[trigger] records[i]).len() >= 1,
        forall|i: int| 0 <= i < records.len() ==> free_of(#[trigger] records[i], ','),
        forall|i: int| 0 <= i < records.len() ==> free_of(#[trigger] records[i], '\n'),
    ensures
        split(csv_text(records), '\n') == (seq![header_line()] + data_lines(records)).push(
            Seq::empty(),
        ),
        forall|i: int|
            0 <= i < records.len() ==> split(#[trigger] data_lines(records)[i], ',')
                == records[i],
{
    let lines = seq![header_line()] + data_lines(records);
    let pieces = lines.push(Seq::empty());
    lemma_header_columns();
    assert forall|i: int| 0 <= i < records.len() implies split(
        #[trigger] data_lines(records)[i],
        ',',
    ) == records[i] by {
        lemma_split_join(records[i], ',');
    }
    assert(free_of(pieces, '\n')) by {
        assert forall|k: int| 0 <= k < pieces.len() implies !(#[trigger] pieces[k]).contains(
            '\n',
        ) by {
            if 1 <= k <= records.len() {
                assert(pieces[k] == join(records[k - 1], ','));
                lemma_join_free(records[k - 1], ',', '\n');
            }
        }
    }
    lemma_split_join(pieces, '\n');
    lemma_lines_text_is_join(lines);
    lemma_lines_text_prepend(header_line(), data_lines(records));
}

/// A first line in front of the others comes first in the text.
pub proof fn lemma_lines_text_prepend(first: Seq<char>, rest: Seq<Seq<char>>)
    ensures
        lines_text(seq![first] + rest) == first.push('\n') + lines_text(rest),
    decreases rest.len(),
{
    let all = seq![first] + rest;
    if rest.len() == 0 {
        assert(all.drop_last() =~= Seq::<Seq<char>>::empty());
        assert(lines_text(Seq::<Seq<char>>::empty()) =~= Seq::<char>::empty());
        assert(all.last() == first);
        assert(lines_text(all) =~= first.push('\n'));
        assert(first.push('\n') + lines_text(rest) =~= first.push('\n'));
    } else {
        lemma_lines_text_prepend(first, rest.drop_last());
        assert(all.drop_last() =~= seq![first] + rest.drop_last());
        assert(all.last() == rest.last());
        assert(lines_text(all) =~= first.push('\n') + lines_text(rest));
    }
}

} // verus!
