//! The run over the divisions, one after the other: which division is
//! fetched next, what is written for a reply, and when the run ends. The
//! fetching and the writing themselves are the caller's.

use vstd::prelude::*;
use vstd::string::*;
use crate::csv::{csv_text, header_line, lemma_header_fixed, save_csv};
use crate::division::{division_views, output_path, path_of, Division};
use crate::fetch::{comp_tables, extract_table, FetchError};
use crate::html::selected_cells;
use crate::stats::records;
use crate::table::{accepted, cell_selector, parse_volleyball_table, row_selector, TableError};

verus! {

/// Why a run ended before its last division.
#[derive(Debug, Clone, Copy, PartialEq, Eq, Structural)]
pub enum RunError {
    /// The request could not be sent, or no reply came.
    Network,
    /// The reply held no table.
    Reply(FetchError),
    /// The table could not be read.
    Table(TableError),
    /// The file could not be created or written.
    Write,
    /// The event is none that the run was waiting for.
    OutOfTurn,
}

/// What the run waits for.
#[derive(Debug, Clone, Copy, PartialEq, Eq, Structural)]
pub enum Awaiting {
    /// The run has not begun.
    Start,
    /// A division's table was asked for.
    Reply,
    /// A division's file was handed out to be written.
    Written,
    /// The run is over.
    Nothing,
}

/// What has happened outside.
#[derive(Debug, Clone, PartialEq, Eq)]
pub enum Event {
    /// The run begins.
    Start,
    /// The reply to the last request came, with this body.
    Reply(String),
    /// The last request failed.
    NoReply,
    /// The last file was written.
    Written,
    /// The last file could not be created or written.
    NotWritten,
}

/// The mathematical form of an [`Event`].
pub ghost enum EventView {
    Start,
    Reply(Seq<char>),
    NoReply,
    Written,
    NotWritten,
}

impl View for Event {
    type V = EventView;

    open spec fn view(&self) -> EventView {
        match self {
            Event::Start => EventView::Start,
            Event::Reply(body) => EventView::Reply(body@),
            Event::NoReply => EventView::NoReply,
            Event::Written => EventView::Written,
            Event::NotWritten => EventView::NotWritten,
        }
    }
}

/// What is to be done outside next.
#[derive(Debug, Clone, PartialEq, Eq)]
pub enum Action {
    /// Ask for the table of this division.
    Fetch { label: String, competition_id: String },
    /// Create the file at `path`, replacing one that is there, and write
    /// `contents` to it.
    Write { path: String, contents: String, competition_id: String },
    /// Every division is done.
    Finish,
    /// The run has failed; nothing more is fetched or written.
    Abort(RunError),
}

/// The mathematical form of an [`Action`].
pub ghost enum ActionView {
    Fetch { label: Seq<char>, competition_id: Seq<char> },
    Write { path: Seq<char>, contents: Seq<char>, competition_id: Seq<char> },
    Finish,
    Abort(RunError),
}

impl View for Action {
    type V = ActionView;

    open spec fn view(&self) -> ActionView {
        match self {
            Action::Fetch { label, competition_id } => ActionView::Fetch {
                label: label@,
                competition_id: competition_id@,
            },
            Action::Write { path, contents, competition_id } => ActionView::Write {
                path: path@,
                contents: contents@,
                competition_id: competition_id@,
            },
            Action::Finish => ActionView::Finish,
            Action::Abort(error) => ActionView::Abort(*error),
        }
    }
}

/// The text of the file for a reply: the table in the reply, read into
/// entries and written out as comma-separated text.
pub open spec fn contents_of(body: Seq<char>) -> Result<Seq<char>, RunError> {
    match comp_tables(body) {
        Err(error) => Err(RunError::Reply(error)),
        Ok(html) => match selected_cells(html, row_selector(), cell_selector()) {
            None => Err(RunError::Table(TableError::SelectorRejected)),
            Some(rows) => Ok(csv_text(accepted(rows))),
        },
    }
}

/// The mathematical form of a rendered reply.
pub open spec fn rendered(out: Result<String, RunError>) -> Result<Seq<char>, RunError> {
    match out {
        Ok(text) => Ok(text@),
        Err(error) => Err(error),
    }
}

/// The text of the file for a reply.
pub fn render_reply(body: &str) -> (out: Result<String, RunError>)
    ensures
        rendered(out) == contents_of(body@),
{
    let html = match extract_table(body) {
        Ok(html) => html,
        Err(error) => { return Err(RunError::Reply(error)); },
    };
    let teams = match parse_volleyball_table(html.as_str()) {
        Ok(teams) => teams,
        Err(error) => { return Err(RunError::Table(error)); },
    };
    let mut contents = String::new();
    save_csv(teams.as_slice(), &mut contents);
    assert(contents@ =~= csv_text(records(teams@)));
    Ok(contents)
}

/// A run over a list of divisions.
pub struct Run {
    divisions: Vec<Division>,
    output_dir: Option<String>,
    position: usize,
    awaiting: Awaiting,
}

/// The mathematical form of a [`Run`].
pub ghost struct RunView {
    /// The divisions, in the order in which they are fetched.
    pub divisions: Seq<(Seq<char>, Seq<char>)>,
    /// The directory that the files go to, where one was given.
    pub output_dir: Option<Seq<char>>,
    /// The place of the division that is in work.
    pub position: nat,
    /// What the run waits for.
    pub awaiting: Awaiting,
}

impl RunView {
    /// While a reply or a file is awaited, a division is in work.
    pub open spec fn wf(self) -> bool {
        (self.awaiting is Reply || self.awaiting is Written) ==> self.position
            < self.divisions.len()
    }

    /// The run as it begins.
    pub open spec fn initial(
        divisions: Seq<(Seq<char>, Seq<char>)>,
        output_dir: Option<Seq<char>>,
    ) -> RunView {
        RunView { divisions, output_dir, position: 0, awaiting: Awaiting::Start }
    }

    /// The same run, over.
    pub open spec fn stopped(self) -> RunView {
        RunView { awaiting: Awaiting::Nothing, ..self }
    }

    /// The run turns to the division at `position`: its table is asked for,
    /// or the run is finished where there is no such division.
    pub open spec fn enter(self, position: nat) -> (RunView, ActionView) {
        if position < self.divisions.len() {
            (
                RunView { position, awaiting: Awaiting::Reply, ..self },
                ActionView::Fetch {
                    label: self.divisions[position as int].0,
                    competition_id: self.divisions[position as int].1,
                },
            )
        } else {
            (RunView { position, awaiting: Awaiting::Nothing, ..self }, ActionView::Finish)
        }
    }

    /// The file that is written for a reply to the division in work, or the
    /// failure that ends the run.
    pub open spec fn on_reply(self, body: Seq<char>) -> (RunView, ActionView) {
        match contents_of(body) {
            Ok(contents) => (
                RunView { awaiting: Awaiting::Written, ..self },
                ActionView::Write {
                    path: path_of(self.output_dir, self.divisions[self.position as int].0),
                    contents,
                    competition_id: self.divisions[self.position as int].1,
                },
            ),
            Err(error) => (self.stopped(), ActionView::Abort(error)),
        }
    }

    /// The state after an event, and what is to be done next. Any failure
    /// ends the run; so does an event that was not awaited.
    pub open spec fn next(self, event: EventView) -> (RunView, ActionView) {
        match (self.awaiting, event) {
            (Awaiting::Start, EventView::Start) => self.enter(0),
            (Awaiting::Reply, EventView::Reply(body)) => self.on_reply(body),
            (Awaiting::Reply, EventView::NoReply) => (
                self.stopped(),
                ActionView::Abort(RunError::Network),
            ),
            (Awaiting::Written, EventView::Written) => self.enter(self.position + 1),
            (Awaiting::Written, EventView::NotWritten) => (
                self.stopped(),
                ActionView::Abort(RunError::Write),
            ),
            _ => (self.stopped(), ActionView::Abort(RunError::OutOfTurn)),
        }
    }
}

/// The mathematical form of an optional directory that is owned.
pub open spec fn owned_dir_text(output_dir: Option<String>) -> Option<Seq<char>> {
    match output_dir {
        Some(dir) => Some(dir@),
        None => None,
    }
}

impl View for Run {
    type V = RunView;

    closed spec fn view(&self) -> RunView {
        RunView {
            divisions: division_views(self.divisions@),
            output_dir: owned_dir_text(self.output_dir),
            position: self.position as nat,
            awaiting: self.awaiting,
        }
    }
}

impl Run {
    #[verifier::type_invariant]
    spec fn inv(self) -> bool {
        self@.wf()
    }

    /// A run over `divisions` that has not begun. The files go to
    /// `output_dir`, where one is given.
    pub fn new(divisions: Vec<Division>, output_dir: Option<String>) -> (run: Run)
        ensures
            run@ == RunView::initial(division_views(divisions@), owned_dir_text(output_dir)),
    {
        Run { divisions, output_dir, position: 0, awaiting: Awaiting::Start }
    }

    /// What the run waits for.
    pub fn awaiting(&self) -> (awaiting: Awaiting)
        ensures
            awaiting == self@.awaiting,
            self@.wf(),
    {
        proof {
            use_type_invariant(self);
        }
        self.awaiting
    }

    /// The run stopped, and the reason handed out.
    fn abort(self, error: RunError) -> (out: (Run, Action))
        ensures
            out.0@ == self@.stopped(),
            out.1@ == ActionView::Abort(error),
    {
        let run = Run {
            divisions: self.divisions,
            output_dir: self.output_dir,
            position: self.position,
            awaiting: Awaiting::Nothing,
        };
        (run, Action::Abort(error))
    }

    /// The run turned to the division at `position`.
    fn enter(self, position: usize) -> (out: (Run, Action))
        ensures
            (out.0@, out.1@) == self@.enter(position as nat),
    {
        if position < self.divisions.len() {
            let action = Action::Fetch {
                label: self.divisions[position].label.clone(),
                competition_id: self.divisions[position].competition_id.clone(),
            };
            let run = Run {
                divisions: self.divisions,
                output_dir: self.output_dir,
                position,
                awaiting: Awaiting::Reply,
            };
            (run, action)
        } else {
            let run = Run {
                divisions: self.divisions,
                output_dir: self.output_dir,
                position,
                awaiting: Awaiting::Nothing,
            };
            (run, Action::Finish)
        }
    }

    /// The file for a reply to the division in work.
    fn on_reply(self, body: &str) -> (out: (Run, Action))
        requires
            self@.awaiting is Reply,
        ensures
            (out.0@, out.1@) == self@.on_reply(body@),
    {
        proof {
            use_type_invariant(&self);
        }
        match render_reply(body) {
            Ok(contents) => {
                let division = &self.divisions[self.position];
                let path = match &self.output_dir {
                    Some(dir) => output_path(Some(dir.as_str()), division.label.as_str()),
                    None => output_path(None, division.label.as_str()),
                };
                let action = Action::Write {
                    path,
                    contents,
                    competition_id: division.competition_id.clone(),
                };
                let run = Run {
                    divisions: self.divisions,
                    output_dir: self.output_dir,
                    position: self.position,
                    awaiting: Awaiting::Written,
                };
                (run, action)
            },
            Err(error) => self.abort(error),
        }
    }

    /// Takes an event and says what is to be done next. The divisions are
    /// gone through in their order, one request and one file at a time; the
    /// first failure ends the run.
    pub fn step(self, event: Event) -> (out: (Run, Action))
        ensures
            (out.0@, out.1@) == self@.next(event@),
    {
        proof {
            use_type_invariant(&self);
        }
        match self.awaiting {
            Awaiting::Start => match event {
                Event::Start => self.enter(0),
                _ => self.abort(RunError::OutOfTurn),
            },
            Awaiting::Reply => match event {
                Event::Reply(body) => self.on_reply(body.as_str()),
                Event::NoReply => self.abort(RunError::Network),
                _ => self.abort(RunError::OutOfTurn),
            },
            Awaiting::Written => match event {
                Event::Written => {
                    let count = self.divisions.len();
                    assert(self@.position < self@.divisions.len());
                    assert(self.position < count);
                    let position = self.position + 1;
                    self.enter(position)
                },
                Event::NotWritten => self.abort(RunError::Write),
                _ => self.abort(RunError::OutOfTurn),
            },
            Awaiting::Nothing => self.abort(RunError::OutOfTurn),
        }
    }
}

/// A well-formed run stays well formed.
pub proof fn lemma_next_wf(run: RunView, event: EventView)
    requires
        run.wf(),
    ensures
        run.next(event).0.wf(),
{
}

/// An event changes neither the divisions nor the directory of a run.
pub proof fn lemma_next_keeps_settings(run: RunView, event: EventView)
    ensures
        run.next(event).0.divisions == run.divisions,
        run.next(event).0.output_dir == run.output_dir,
{
}

/// A reply without a table ends the run: where the reply is not JSON, or has
/// no `CompTables`, or has one that is no string, the run is aborted for that
/// reason, and no file is handed out for the division.
pub proof fn lemma_no_table_no_file(run: RunView, body: Seq<char>)
    requires
        run.awaiting is Reply,
        comp_tables(body) is Err,
    ensures
        run.next(EventView::Reply(body)).1 == ActionView::Abort(
            RunError::Reply(comp_tables(body)->Err_0),
        ),
        run.next(EventView::Reply(body)).0 == run.stopped(),
{
}

/// A file is handed out only for a reply that was awaited and that holds a
/// table; it is the file of the division in work, and the run then waits for
/// it to be written.
pub proof fn lemma_write_needs_table(run: RunView, event: EventView)
    requires
        run.next(event).1 is Write,
    ensures
        run.awaiting is Reply,
        event is Reply,
        comp_tables(event->Reply_0) is Ok,
        contents_of(event->Reply_0) == Ok::<Seq<char>, RunError>(
            run.next(event).1->Write_contents,
        ),
        run.next(event).1->Write_path == path_of(
            run.output_dir,
            run.divisions[run.position as int].0,
        ),
        run.next(event).0 == (RunView { awaiting: Awaiting::Written, ..run }),
{
}

/// A run that is over stays over: whatever comes, nothing more is fetched or
/// written.
pub proof fn lemma_stopped_stays(run: RunView, event: EventView)
    requires
        run.awaiting is Nothing,
    ensures
        run.next(event) == (run, ActionView::Abort(RunError::OutOfTurn)),
{
}

/// Whatever ends a run leaves it over: after `Finish` or `Abort` nothing is
/// awaited.
pub proof fn lemma_end_is_final(run: RunView, event: EventView)
    requires
        run.next(event).1 is Finish || run.next(event).1 is Abort,
    ensures
        run.next(event).0.awaiting is Nothing,
{
}

/// The divisions are taken in their order: a request is for the division at
/// the place the run has come to, which is the first as the run begins and
/// the one behind the last written afterwards.
pub proof fn lemma_fetch_in_order(run: RunView, event: EventView)
    requires
        run.next(event).1 is Fetch,
    ensures
        (run.awaiting is Start && event is Start) || (run.awaiting is Written
            && event is Written),
        run.next(event).0.position == (if run.awaiting is Start {
            0
        } else {
            run.position + 1
        }),
        run.next(event).0.position < run.divisions.len(),
        run.next(event).0.awaiting is Reply,
        run.next(event).1->Fetch_label == run.divisions[run.next(event).0.position as int].0,
        run.next(event).1->Fetch_competition_id
            == run.divisions[run.next(event).0.position as int].1,
{
}

/// The run after a sequence of events.
pub open spec fn after(run: RunView, events: Seq<EventView>) -> RunView
    decreases events.len(),
{
    if events.len() == 0 {
        run
    } else {
        after(run, events.drop_last()).next(events.last()).0
    }
}

/// The files that are handed out over a sequence of events, in the order in
/// which they are handed out: of each its path and its contents.
pub open spec fn files(run: RunView, events: Seq<EventView>) -> Seq<(Seq<char>, Seq<char>)>
    decreases events.len(),
{
    if events.len() == 0 {
        Seq::empty()
    } else {
        let before = files(run, events.drop_last());
        match after(run, events.drop_last()).next(events.last()).1 {
            ActionView::Write { path, contents, competition_id } => before.push((path, contents)),
            _ => before,
        }
    }
}

/// Whatever happens to a run from its beginning, its files are those of the
/// first divisions, in the order of the divisions and one for each: the
/// `k`-th file has the path of the `k`-th division, and its contents begin
/// with the header line. So a run that fails leaves the files of the
/// divisions before the failure and no others.
pub proof fn lemma_files_in_order(
    divisions: Seq<(Seq<char>, Seq<char>)>,
    output_dir: Option<Seq<char>>,
    events: Seq<EventView>,
)
    ensures
        ({
            let begun = RunView::initial(divisions, output_dir);
            let run = after(begun, events);
            let written = files(begun, events);
            &&& run.wf()
            &&& run.divisions == divisions
            &&& run.output_dir == output_dir
            &&& written.len() <= divisions.len()
            &&& run.awaiting is Start ==> written.len() == 0
            &&& run.awaiting is Reply ==> written.len() == run.position
            &&& run.awaiting is Written ==> written.len() == run.position + 1
            &&& forall|k: int|
                0 <= k < written.len() ==> {
                    &&& (#[trigger] written[k]).0 == path_of(output_dir, divisions[k].0)
                    &&& written[k].1.len() > header_line().len()
                    &&& written[k].1.subrange(0, header_line().len() as int + 1)
                        == header_line().push('\n')
                }
        }),
    decreases events.len(),
{
    let begun = RunView::initial(divisions, output_dir);
    if events.len() > 0 {
        let earlier = events.drop_last();
        lemma_files_in_order(divisions, output_dir, earlier);
        let run = after(begun, earlier);
        let step = run.next(events.last());
        let before = files(begun, earlier);
        let written = files(begun, events);
        if step.1 is Write {
            let body = events.last()->Reply_0;
            let rows = selected_cells(comp_tables(body)->Ok_0, row_selector(), cell_selector())->Some_0;
            assert(step.1->Write_contents == csv_text(accepted(rows)));
            lemma_header_fixed(accepted(rows));
            assert(written == before.push((step.1->Write_path, step.1->Write_contents)));
            assert forall|k: int| 0 <= k < written.len() implies {
                &&& (#[trigger] written[k]).0 == path_of(output_dir, divisions[k].0)
                &&& written[k].1.len() > header_line().len()
                &&& written[k].1.subrange(0, header_line().len() as int + 1)
                    == header_line().push('\n')
            } by {
                if k < before.len() {
                    assert(written[k] == before[k]);
                }
            }
        } else {
            assert(written == before);
        }
    }
}

/// The events of a run without a failure: the beginning, then for each body
/// the reply that holds it and the word that the file is written.
pub open spec fn clean_events(bodies: Seq<Seq<char>>) -> Seq<EventView>
    decreases bodies.len(),
{
    if bodies.len() == 0 {
        seq![EventView::Start]
    } else {
        clean_events(bodies.drop_last()).push(EventView::Reply(bodies.last())).push(
            EventView::Written,
        )
    }
}

/// A run in which every reply holds a table and every file is written goes
/// through all its divisions: after the beginning and, for each division, its
/// reply and the word that its file is written, there is one file for each
/// division and the run is over.
pub proof fn lemma_clean_run(
    divisions: Seq<(Seq<char>, Seq<char>)>,
    output_dir: Option<Seq<char>>,
    bodies: Seq<Seq<char>>,
)
    requires
        bodies.len() <= divisions.len(),
        forall|i: int| 0 <= i < bodies.len() ==> contents_of(#[trigger] bodies[i]) is Ok,
    ensures
        ({
            let begun = RunView::initial(divisions, output_dir);
            let events = clean_events(bodies);
            let run = after(begun, events);
            let written = files(begun, events);
            &&& written.len() == bodies.len()
            &&& run.position == bodies.len()
            &&& run.awaiting == (if bodies.len() < divisions.len() {
                Awaiting::Reply
            } else {
                Awaiting::Nothing
            })
            &&& forall|k: int|
                0 <= k < bodies.len() ==> #[trigger] written[k] == (
                    path_of(output_dir, divisions[k].0),
                    contents_of(bodies[k])->Ok_0,
                )
        }),
    decreases bodies.len(),
{
    let begun = RunView::initial(divisions, output_dir);
    let events = clean_events(bodies);
    let none = Seq::<EventView>::empty();
    if bodies.len() == 0 {
        assert(events.drop_last() =~= none);
        assert(events.last() == EventView::Start);
        assert(after(begun, none) == begun);
        assert(files(begun, none) =~= Seq::<(Seq<char>, Seq<char>)>::empty());
        assert(after(begun, events) == begun.next(EventView::Start).0);
        assert(files(begun, events) == files(begun, none));
    } else {
        let fewer = bodies.drop_last();
        let body = bodies.last();
        assert forall|i: int| 0 <= i < fewer.len() implies contents_of(
            #[trigger] fewer[i],
        ) is Ok by {
            assert(fewer[i] == bodies[i]);
        }
        lemma_clean_run(divisions, output_dir, fewer);
        let earlier = clean_events(fewer);
        let replied = earlier.push(EventView::Reply(body));
        assert(events == replied.push(EventView::Written));
        assert(replied.drop_last() =~= earlier);
        assert(replied.last() == EventView::Reply(body));
        assert(events.drop_last() =~= replied);
        assert(events.last() == EventView::Written);

        let asked = after(begun, earlier);
        let files_asked = files(begun, earlier);
        assert(asked.awaiting is Reply);
        lemma_files_in_order(divisions, output_dir, earlier);
        assert(contents_of(body) is Ok) by {
            assert(bodies[bodies.len() - 1] == body);
        }
        let answered = after(begun, replied);
        assert(answered == asked.next(EventView::Reply(body)).0);
        let file = (
            path_of(output_dir, divisions[fewer.len() as int].0),
            contents_of(body)->Ok_0,
        );
        assert(files(begun, replied) == files_asked.push(file));
        assert(answered.awaiting is Written);
        assert(after(begun, events) == answered.next(EventView::Written).0);
        let written = files(begun, events);
        assert(written == files_asked.push(file));
        assert forall|k: int| 0 <= k < bodies.len() implies #[trigger] written[k] == (
            path_of(output_dir, divisions[k].0),
            contents_of(bodies[k])->Ok_0,
        ) by {
            if k < fewer.len() {
                assert(fewer[k] == bodies[k]);
                assert(written[k] == files_asked[k]);
            }
        }
    }
}

} // verus!
