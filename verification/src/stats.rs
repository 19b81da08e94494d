//! One team's entry in a standings table.

use vstd::prelude::*;
use vstd::string::*;
use crate::delimited::{append_part, join};

verus! {

/// How many fields a standings entry has.
pub const FIELD_COUNT: usize = 12;

/// One row of a standings table. Every field is kept as the text of its cell.
#[derive(Debug, Clone, PartialEq, Eq)]
pub struct TeamStats {
    pub position: String,
    pub team: String,
    pub played: String,
    pub wins: String,
    pub losses: String,
    pub sets_for: String,
    pub sets_against: String,
    pub sets_difference: String,
    pub points_for: String,
    pub points_against: String,
    pub points_quotient: String,
    pub points: String,
}

impl View for TeamStats {
    type V = Seq<Seq<char>>;

    /// The twelve fields in the order of the table's columns.
    open spec fn view(&self) -> Seq<Seq<char>> {
        seq![
            self.position@,
            self.team@,
            self.played@,
            self.wins@,
            self.losses@,
            self.sets_for@,
            self.sets_against@,
            self.sets_difference@,
            self.points_for@,
            self.points_against@,
            self.points_quotient@,
            self.points@,
        ]
    }
}

/// The texts that a vector of strings holds.
pub open spec fn texts(cells: Seq<String>) -> Seq<Seq<char>> {
    Seq::new(cells.len(), |i: int| cells[i]@)
}

/// The records that a vector of entries holds.
pub open spec fn records(teams: Seq<TeamStats>) -> Seq<Seq<Seq<char>>> {
    Seq::new(teams.len(), |i: int| teams[i]@)
}

/// The entry that a row of cells stands for: its first twelve cells, if it has
/// that many.
pub open spec fn record_of(cells: Seq<Seq<char>>) -> Option<Seq<Seq<char>>> {
    if cells.len() >= FIELD_COUNT {
        Some(cells.subrange(0, FIELD_COUNT as int))
    } else {
        None
    }
}

impl TeamStats {
    /// Reads an entry from the cells of a row. A row of fewer than twelve
    /// cells is no entry; cells beyond the twelfth are left aside.
    pub fn from_cells(cells: &Vec<String>) -> (out: Option<TeamStats>)
        ensures
            out is Some <==> cells@.len() >= FIELD_COUNT,
            match out {
                Some(team) => Some(team@) == record_of(texts(cells@)),
                None => record_of(texts(cells@)) is None,
            },
    {
        if cells.len() < 12 {
            return None;
        }
        let team = TeamStats {
            position: cells[0].clone(),
            team: cells[1].clone(),
            played: cells[2].clone(),
            wins: cells[3].clone(),
            losses: cells[4].clone(),
            sets_for: cells[5].clone(),
            sets_against: cells[6].clone(),
            sets_difference: cells[7].clone(),
            points_for: cells[8].clone(),
            points_against: cells[9].clone(),
            points_quotient: cells[10].clone(),
            points: cells[11].clone(),
        };
        assert(team@ =~= texts(cells@).subrange(0, 12));
        Some(team)
    }

    /// The entry as one line of comma-separated text, without a line end.
    /// Nothing is quoted or escaped.
    pub fn csv_line(&self) -> (line: String)
        ensures
            line@ == join(self@, ','),
    {
        let mut line = String::from_str(self.position.as_str());
        let ghost mut parts = seq![self.position@];
        append_part(&mut line, self.team.as_str(), Ghost(parts));
        proof { parts = parts.push(self.team@); }
        append_part(&mut line, self.played.as_str(), Ghost(parts));
        proof { parts = parts.push(self.played@); }
        append_part(&mut line, self.wins.as_str(), Ghost(parts));
        proof { parts = parts.push(self.wins@); }
        append_part(&mut line, self.losses.as_str(), Ghost(parts));
        proof { parts = parts.push(self.losses@); }
        append_part(&mut line, self.sets_for.as_str(), Ghost(parts));
        proof { parts = parts.push(self.sets_for@); }
        append_part(&mut line, self.sets_against.as_str(), Ghost(parts));
        proof { parts = parts.push(self.sets_against@); }
        append_part(&mut line, self.sets_difference.as_str(), Ghost(parts));
        proof { parts = parts.push(self.sets_difference@); }
        append_part(&mut line, self.points_for.as_str(), Ghost(parts));
        proof { parts = parts.push(self.points_for@); }
        append_part(&mut line, self.points_against.as_str(), Ghost(parts));
        proof { parts = parts.push(self.points_against@); }
        append_part(&mut line, self.points_quotient.as_str(), Ghost(parts));
        proof { parts = parts.push(self.points_quotient@); }
        append_part(&mut line, self.points.as_str(), Ghost(parts));
        proof {
            parts = parts.push(self.points@);
            assert(parts =~= self@);
        }
        line
    }
}

} // verus!
