//! The divisions whose tables are kept, and where each table is written.

use vstd::prelude::*;
use vstd::string::*;

verus! {

/// A league division: the name its file goes by, and the number under which
/// the competition is known upstream.
#[derive(Debug, Clone, PartialEq, Eq)]
pub struct Division {
    pub label: String,
    pub competition_id: String,
}

impl View for Division {
    type V = (Seq<char>, Seq<char>);

    /// The label, then the competition's number.
    open spec fn view(&self) -> (Seq<char>, Seq<char>) {
        (self.label@, self.competition_id@)
    }
}

impl Division {
    /// The division with this label and this competition number.
    pub fn new(label: &str, competition_id: &str) -> (division: Division)
        ensures
            division@ == (label@, competition_id@),
    {
        Division {
            label: String::from_str(label),
            competition_id: String::from_str(competition_id),
        }
    }
}

/// What a vector of divisions holds.
pub open spec fn division_views(list: Seq<Division>) -> Seq<(Seq<char>, Seq<char>)> {
    Seq::new(list.len(), |i: int| list[i]@)
}

/// The seven divisions, in the order in which they are fetched.
pub open spec fn standard_divisions() -> Seq<(Seq<char>, Seq<char>)> {
    seq![
        ("division_1_men_nvl"@, "196048"@),
        ("div_2a_men"@, "198880"@),
        ("div_3a_men"@, "198882"@),
        ("div_1a_women"@, "198885"@),
        ("div_1b_women"@, "198886"@),
        ("div_2a_women"@, "198887"@),
        ("div_2b_women"@, "198888"@),
    ]
}

/// The seven divisions, in the order in which they are fetched.
pub fn divisions() -> (list: Vec<Division>)
    ensures
        division_views(list@) == standard_divisions(),
{
    let mut list: Vec<Division> = Vec::new();
    list.push(Division::new("division_1_men_nvl", "196048"));
    list.push(Division::new("div_2a_men", "198880"));
    list.push(Division::new("div_3a_men", "198882"));
    list.push(Division::new("div_1a_women", "198885"));
    list.push(Division::new("div_1b_women", "198886"));
    list.push(Division::new("div_2a_women", "198887"));
    list.push(Division::new("div_2b_women", "198888"));
    assert(division_views(list@) =~= standard_divisions());
    list
}

/// The file for a label: `<label>.csv`, under `<dir>/` where a directory is
/// given and its name is not empty, else with nothing in front.
pub open spec fn path_of(output_dir: Option<Seq<char>>, label: Seq<char>) -> Seq<char> {
    match output_dir {
        Some(dir) => if dir.len() > 0 {
            dir + "/"@ + label + ".csv"@
        } else {
            label + ".csv"@
        },
        None => label + ".csv"@,
    }
}

/// The mathematical form of an optional directory.
pub open spec fn dir_text(output_dir: Option<&str>) -> Option<Seq<char>> {
    match output_dir {
        Some(dir) => Some(dir@),
        None => None,
    }
}

/// The path of the file that the table of `label` is written to.
pub fn output_path(output_dir: Option<&str>, label: &str) -> (path: String)
    ensures
        path@ == path_of(dir_text(output_dir), label@),
{
    let mut path = String::new();
    match output_dir {
        Some(dir) => {
            if !dir.is_empty() {
                path.append(dir);
                path.append("/");
            }
        },
        None => {},
    }
    path.append(label);
    path.append(".csv");
    proof {
        let empty = Seq::<char>::empty();
        assert(empty + label@ + ".csv"@ =~= label@ + ".csv"@);
        match output_dir {
            Some(dir) => {
                assert(empty + dir@ + "/"@ + label@ + ".csv"@ =~= dir@ + "/"@ + label@ + ".csv"@);
            },
            None => {},
        }
    }
    path
}

} // verus!
