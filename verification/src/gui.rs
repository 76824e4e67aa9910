//! The steps of the wizard that leads from a log to its subtitle file.
//!
//! The wizard shows one screen at a time.  What the user does arrives as a
//! `Message`; `App::update` says what has to be done outside, and the
//! outcome of that work comes back through `App::generated` and
//! `App::file_selected`.

use vstd::prelude::*;
use crate::error::Fit2SrtError;
use crate::record::Record;
use crate::srt_iter::{
    advanced, cursor_of, default_config, entries_of, Cursor, SrtGenerator, SrtIter,
};
use crate::summary::refuses;
use crate::time_delta::MAX_SECONDS;
use crate::window::{window, WindowConfig};

verus! {

/// The screens of the wizard, in their order.
#[derive(Debug, Clone, Copy, PartialEq, Eq, Structural)]
pub enum Screen {
    /// What the wizard is for.
    Intro,
    /// Where the log is chosen and the time is set.
    Input,
    /// Where the subtitle file is announced.
    End,
    /// How to support the project.
    CryptoDonate,
}

/// What the user can do.
#[derive(Debug, Clone, Copy, PartialEq, Eq, Structural)]
pub enum Message {
    /// Go back one screen.
    BackPressed,
    /// Write the subtitles and go on to the next screen.
    NextPressed,
    /// Choose the log.
    SelectFile,
    /// Move the time of day at which the video began by so many seconds.
    StartingTimeChange(i64),
}

/// What has to be done outside the wizard after a message.
#[derive(Debug, Clone, Copy, PartialEq, Eq, Structural)]
pub enum Action {
    /// Nothing.
    Nothing,
    /// Write the subtitle file, and report with `App::generated`.
    Generate,
    /// Let the user choose a log, and report with `App::file_selected`.
    ChooseFile,
}

/// The seconds of a day.
pub const DAY: u32 = 86400;

impl Screen {
    /// The place of the screen in the order of the screens.
    pub open spec fn position(self) -> int {
        match self {
            Screen::Intro => 0,
            Screen::Input => 1,
            Screen::End => 2,
            Screen::CryptoDonate => 3,
        }
    }

    /// The screen at a place in the order, if there is one.
    pub open spec fn at(position: int) -> Option<Screen> {
        if position == 0 {
            Some(Screen::Intro)
        } else if position == 1 {
            Some(Screen::Input)
        } else if position == 2 {
            Some(Screen::End)
        } else if position == 3 {
            Some(Screen::CryptoDonate)
        } else {
            None
        }
    }

    /// The heading of the screen.
    pub open spec fn heading(self) -> Seq<char> {
        match self {
            Screen::Intro => "Introduction"@,
            Screen::Input => "Setup inputs"@,
            Screen::End => "End"@,
            Screen::CryptoDonate => "CryptoDonate"@,
        }
    }

    /// The screen after this one, if there is one.
    pub fn next(self) -> (next: Option<Screen>)
        ensures
            next == Screen::at(self.position() + 1),
    {
        match self {
            Screen::Intro => Some(Screen::Input),
            Screen::Input => Some(Screen::End),
            Screen::End => Some(Screen::CryptoDonate),
            Screen::CryptoDonate => None,
        }
    }

    /// The screen before this one, if there is one.
    pub fn previous(self) -> (previous: Option<Screen>)
        ensures
            previous == Screen::at(self.position() - 1),
    {
        match self {
            Screen::Intro => None,
            Screen::Input => Some(Screen::Intro),
            Screen::End => Some(Screen::Input),
            Screen::CryptoDonate => Some(Screen::End),
        }
    }
}

/// Going on and then back, or back and then on, leads to the same screen.
pub proof fn lemma_next_and_previous_undo(screen: Screen)
    ensures
        Screen::at(screen.position() + 1) matches Some(next) ==> Screen::at(next.position() - 1)
            == Some(screen),
        Screen::at(screen.position() - 1) matches Some(previous) ==> Screen::at(
            previous.position() + 1,
        ) == Some(screen),
{
}

/// The state of the wizard.
pub struct App {
    screen: Screen,
    fitfile: Option<String>,
    starting_time: u32,
}

/// The state of the wizard as plain values.
pub struct AppView {
    /// The screen that is shown.
    pub screen: Screen,
    /// The path of the chosen log.
    pub fitfile: Option<Seq<char>>,
    /// The time of day at which the video began, in seconds since midnight.
    pub starting_time: nat,
}

impl View for App {
    type V = AppView;

    closed spec fn view(&self) -> AppView {
        AppView {
            screen: self.screen,
            fitfile: match self.fitfile {
                Some(path) => Some(path@),
                None => None,
            },
            starting_time: self.starting_time as nat,
        }
    }
}

/// The state after a message.  The time of day runs round the clock.
pub open spec fn updated(app: AppView, event: Message) -> AppView {
    match event {
        Message::BackPressed => match Screen::at(app.screen.position() - 1) {
            Some(screen) => AppView { screen, ..app },
            None => app,
        },
        Message::StartingTimeChange(seconds) => AppView {
            starting_time: ((app.starting_time + seconds) % (DAY as int)) as nat,
            ..app
        },
        _ => app,
    }
}

/// What a message asks for.
pub open spec fn asked(event: Message) -> Action {
    match event {
        Message::NextPressed => Action::Generate,
        Message::SelectFile => Action::ChooseFile,
        _ => Action::Nothing,
    }
}

/// The text of a subtitle file: every entry, with an empty line after it.
pub open spec fn file_text(entries: Seq<Seq<char>>) -> Seq<char>
    decreases entries.len(),
{
    if entries.len() == 0 {
        Seq::empty()
    } else {
        file_text(entries.drop_last()) + entries.last() + "\n\n"@
    }
}

/// The entries that are left follow the one that `next` hands out.
proof fn lemma_entries_unfold(cursor: Cursor, shown: Seq<Seq<char>>)
    requires
        cursor.queue.len() > 0,
    ensures
        shown + entries_of(cursor) == shown.push(entries_of(cursor)[0]) + entries_of(
            advanced(cursor),
        ),
{
    assert(shown + entries_of(cursor) =~= shown.push(entries_of(cursor)[0]) + entries_of(
        advanced(cursor),
    ));
}

/// Hands out all entries that are left and writes them into the text of a
/// subtitle file.
pub fn srt_content(entries: &mut SrtIter) -> (content: String)
    requires
        old(entries).wf(),
        old(entries)@.count + old(entries)@.queue.len() <= usize::MAX,
    ensures
        content@ == file_text(entries_of(old(entries)@)),
        final(entries).wf(),
        final(entries)@.queue.len() == 0,
{
    let mut content = String::new();
    let ghost mut shown: Seq<Seq<char>> = Seq::empty();
    assert(shown + entries_of(entries@) =~= entries_of(entries@));
    while entries.len() > 0
        invariant
            entries.wf(),
            entries@.count + entries@.queue.len() <= usize::MAX,
            content@ == file_text(shown),
            shown + entries_of(entries@) == entries_of(old(entries)@),
        decreases entries@.queue.len(),
    {
        let ghost before = entries@;
        proof {
            lemma_entries_unfold(before, shown);
        }
        if let Some((_, _, srt)) = entries.next() {
            let ghost earlier = shown;
            let ghost so_far = content@;
            content.append(srt.as_str());
            content.append("\n\n");
            proof {
                shown = earlier.push(srt@);
                assert(shown.drop_last() =~= earlier);
                assert(shown.last() == srt@);
                assert(content@ =~= so_far + srt@ + "\n\n"@);
            }
        }
    }
    proof {
        assert(entries_of(entries@) =~= Seq::empty());
        assert(shown + Seq::<Seq<char>>::empty() =~= shown);
    }
    content
}

impl App {
    #[verifier::type_invariant]
    spec fn time_is_of_day(self) -> bool {
        self.starting_time < DAY
    }

    /// The wizard at its first screen, with no log chosen and the video
    /// beginning at midnight.
    pub fn new() -> (app: App)
        ensures
            app@ == (AppView { screen: Screen::Intro, fitfile: None, starting_time: 0 }),
    {
        App { screen: Screen::Intro, fitfile: None, starting_time: 0 }
    }

    /// The screen that is shown.
    pub fn screen(&self) -> (screen: Screen)
        ensures
            screen == self@.screen,
    {
        self.screen
    }

    /// The time of day at which the video began, in seconds since
    /// midnight.
    pub fn starting_time(&self) -> (seconds: u32)
        ensures
            seconds == self@.starting_time,
            seconds < DAY,
    {
        proof {
            use_type_invariant(self);
        }
        self.starting_time
    }

    /// The title of the window.
    pub fn title(&self) -> (title: String)
        ensures
            title@ == "Fit2srt - "@ + self@.screen.heading(),
    {
        let screen = match self.screen {
            Screen::Intro => "Introduction",
            Screen::Input => "Setup inputs",
            Screen::End => "End",
            Screen::CryptoDonate => "CryptoDonate",
        };
        let mut title = String::from_str("Fit2srt - ");
        title.append(screen);
        title
    }

    /// Whether the user can go on from the screen that is shown: not from
    /// the last one, and from the inputs only once a log is chosen.
    pub fn can_continue(&self) -> (can: bool)
        ensures
            can == match self@.screen {
                Screen::Intro => true,
                Screen::Input => self@.fitfile is Some,
                Screen::End => true,
                Screen::CryptoDonate => false,
            },
    {
        match self.screen {
            Screen::Intro => true,
            Screen::Input => self.fitfile.is_some(),
            Screen::End => true,
            Screen::CryptoDonate => false,
        }
    }

    /// Takes a message: changes the state and says what has to be done
    /// outside.
    pub fn update(&mut self, event: Message) -> (action: Action)
        requires
            event matches Message::StartingTimeChange(seconds) ==> -MAX_SECONDS <= seconds
                <= MAX_SECONDS,
        ensures
            final(self)@ == updated(old(self)@, event),
            action == asked(event),
    {
        proof {
            use_type_invariant(&*self);
        }
        match event {
            Message::BackPressed => {
                if let Some(screen) = self.screen.previous() {
                    self.screen = screen;
                }
                Action::Nothing
            },
            Message::NextPressed => Action::Generate,
            Message::SelectFile => Action::ChooseFile,
            Message::StartingTimeChange(t) => {
                let within: i64 = t % (DAY as i64);
                let moved: i64 = (self.starting_time as i64 + within + DAY as i64) % (DAY as i64);
                assert(moved == (self.starting_time + t) % (DAY as int)) by {
                    assert(within == t - (DAY as int) * crate::text::trunc_div(
                        t as int,
                        DAY as int,
                    ));
                    vstd::arithmetic::div_mod::lemma_mod_multiples_vanish(
                        1 - crate::text::trunc_div(t as int, DAY as int),
                        self.starting_time + t,
                        DAY as int,
                    );
                }
                self.starting_time = moved as u32;
                Action::Nothing
            },
        }
    }

    /// Takes the outcome of writing the subtitle file: after a success the
    /// wizard goes on to the next screen.
    pub fn generated(&mut self, done: bool)
        ensures
            final(self)@ == match Screen::at(old(self)@.screen.position() + 1) {
                Some(screen) => if done {
                    AppView { screen, ..old(self)@ }
                } else {
                    old(self)@
                },
                None => old(self)@,
            },
    {
        proof {
            use_type_invariant(&*self);
        }
        if done {
            if let Some(screen) = self.screen.next() {
                self.screen = screen;
            }
        }
    }

    /// Takes the log that the user chose, or none.
    pub fn file_selected(&mut self, path: Option<String>)
        ensures
            final(self)@ == (AppView {
                fitfile: match path {
                    Some(p) => Some(p@),
                    None => None,
                },
                ..old(self)@
            }),
    {
        proof {
            use_type_invariant(&*self);
        }
        self.fitfile = path;
    }

    /// The text of the subtitle file for the records of the chosen log:
    /// the samples up to the time of day at which the video began are left
    /// out.
    pub fn gen_srt(&self, records: &Vec<Record>) -> (content: Result<String, Fit2SrtError>)
        ensures
            ({
                let cfg = WindowConfig { after_time_secs: self@.starting_time, ..default_config() };
                let pass = window(cfg, records@);
                match pass.failure {
                    Some(text) => refuses(content, text),
                    None => content matches Ok(text) && text@ == file_text(
                        entries_of(cursor_of(pass, 0, 0)),
                    ),
                }
            }),
    {
        proof {
            use_type_invariant(self);
        }
        let mut generator = SrtGenerator::default();
        generator.after_second(self.starting_time);
        match generator.open(records) {
            Ok(mut entries) => {
                proof {
                    entries.lemma_len_fits();
                }
                Ok(srt_content(&mut entries))
            },
            Err(e) => Err(e),
        }
    }
}

} // verus!
