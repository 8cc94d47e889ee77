//! What the viewer shows and how it answers to the keyboard, the mouse and the compiler.
//!
//! The viewer decides; what it cannot do itself (render a page, draw, copy, quit) it asks for
//! with [`Effects`].
use vstd::prelude::*;

use crate::chars::{chars_of, string_of};
use crate::escape::control;
use crate::search::{find_document_matches, SearchMatch};
use crate::selection::{Glyph, SearchPage, TextIndex};
#[allow(unused_imports)]
use crate::{canvas, chars, escape, search, selection};

verus! {

/// What is left to be done after the viewer has changed.
#[derive(Clone, Copy, Debug, PartialEq, Eq, Structural)]
pub struct Effects {
    /// Render the current page and report it with [`Viewer::page_loaded`].
    pub load: bool,
    /// Draw the window again.
    pub redraw: bool,
    /// Set the window title again.
    pub retitle: bool,
    /// Forget the scaled image of the page.
    pub rescale: bool,
    /// Change the magnification.
    pub zoom: Zoom,
    /// Put the selected text on the clipboard.
    pub copy: bool,
    /// Quit.
    pub exit: bool,
}

/// A change of the magnification.
#[derive(Clone, Copy, Debug, PartialEq, Eq, Structural)]
pub enum Zoom {
    Keep,
    In,
    Out,
    Fit,
}

/// Nothing to be done.
pub open spec fn no_effects() -> Effects {
    Effects {
        load: false,
        redraw: false,
        retitle: false,
        rescale: false,
        zoom: Zoom::Keep,
        copy: false,
        exit: false,
    }
}

/// The window and its title are out of date.
pub open spec fn refresh() -> Effects {
    Effects { redraw: true, retitle: true, ..no_effects() }
}

/// The effects of two steps together, of which the second leaves the magnification alone.
pub open spec fn both(first: Effects, second: Effects) -> Effects {
    Effects {
        load: first.load || second.load,
        redraw: first.redraw || second.redraw,
        retitle: first.retitle || second.retitle,
        rescale: first.rescale || second.rescale,
        zoom: first.zoom,
        copy: first.copy || second.copy,
        exit: first.exit || second.exit,
    }
}

impl Effects {
    fn and(&self, other: &Effects) -> (effects: Self)
        ensures
            effects == both(*self, *other),
    {
        Effects {
            load: self.load || other.load,
            redraw: self.redraw || other.redraw,
            retitle: self.retitle || other.retitle,
            rescale: self.rescale || other.rescale,
            zoom: self.zoom,
            copy: self.copy || other.copy,
            exit: self.exit || other.exit,
        }
    }

    /// Nothing to be done.
    pub fn new() -> (effects: Self)
        ensures
            effects == no_effects(),
    {
        Effects {
            load: false,
            redraw: false,
            retitle: false,
            rescale: false,
            zoom: Zoom::Keep,
            copy: false,
            exit: false,
        }
    }
}

/// The viewer: the document's state, the view of the current page, and the search.
#[derive(Debug)]
pub struct Viewer {
    /// The number of pages of the document.
    pub total: usize,
    /// The current page, counted from one.
    pub page: usize,
    /// Whether a page has been rendered.
    pub shown: bool,
    /// The text of the page that is shown.
    pub text: TextIndex,
    /// How far the page is moved from the middle of the window.
    pub pan_x: i32,
    pub pan_y: i32,
    /// The glyphs at which the selection begins and ends.
    pub selection: Option<(usize, usize)>,
    /// The glyph on which the mouse button went down.
    pub press: Option<usize>,
    /// The query of the search.
    pub query: String,
    /// Whether the query is being typed.
    pub editing: bool,
    /// The page from which the search began.
    pub origin: usize,
    /// The matches of the query.
    pub matches: Vec<SearchMatch>,
    /// The text of all pages.
    pub pages: Vec<SearchPage>,
    /// The match that the viewer has gone to.
    pub active: Option<usize>,
    /// Whether the last compilation failed.
    pub error: bool,
    /// Whether the compiler has given up.
    pub stopped: bool,
}

/// What a [`Viewer`] holds.
#[verifier::ext_equal]
pub struct State {
    pub total: usize,
    pub page: usize,
    pub shown: bool,
    pub glyphs: Seq<Glyph>,
    pub pan_x: i32,
    pub pan_y: i32,
    pub selection: Option<(usize, usize)>,
    pub press: Option<usize>,
    pub query: Seq<char>,
    pub editing: bool,
    pub origin: usize,
    pub matches: Seq<SearchMatch>,
    pub pages: Seq<Seq<(char, usize)>>,
    pub active: Option<int>,
    pub error: bool,
    pub stopped: bool,
}

impl View for Viewer {
    type V = State;

    open spec fn view(&self) -> State {
        State {
            total: self.total,
            page: self.page,
            shown: self.shown,
            glyphs: self.text@,
            pan_x: self.pan_x,
            pan_y: self.pan_y,
            selection: self.selection,
            press: self.press,
            query: self.query@,
            editing: self.editing,
            origin: self.origin,
            matches: self.matches@,
            pages: search::pages_view(self.pages@),
            active: match self.active {
                Some(index) => Some(index as int),
                None => None,
            },
            error: self.error,
            stopped: self.stopped,
        }
    }
}

impl State {
    /// The current page is a page of the document, or the first where there is none, and the
    /// active match is one of the matches.
    pub open spec fn wf(self) -> bool {
        &&& 1 <= self.page
        &&& self.page <= self.total || self.page == 1
        &&& self.active is Some ==> 0 <= self.active->0 < self.matches.len()
    }

    /// The matches are those of the query in the document.
    pub open spec fn searched(self) -> bool {
        self.matches == search::document_matches(self.pages, self.query)
    }
}

/// The viewer before the first compilation.
pub open spec fn start() -> State {
    State {
        total: 0,
        page: 1,
        shown: false,
        glyphs: Seq::empty(),
        pan_x: 0,
        pan_y: 0,
        selection: None,
        press: None,
        query: Seq::empty(),
        editing: false,
        origin: 1,
        matches: Seq::empty(),
        pages: Seq::empty(),
        active: None,
        error: false,
        stopped: false,
    }
}

/// A number kept between `-limit` and `limit`.
pub open spec fn clamped(value: int, limit: i32) -> i32 {
    if value < -limit {
        (-limit) as i32
    } else if value > limit {
        limit
    } else {
        value as i32
    }
}

/// The page kept within the limits of its movement.
pub open spec fn within(s: State, limits: (i32, i32)) -> State {
    State {
        pan_x: clamped(s.pan_x as int, limits.0),
        pan_y: clamped(s.pan_y as int, limits.1),
        ..s
    }
}

/// Going to a page. A page that the document lacks is not gone to.
pub open spec fn showing(s: State, page: int) -> (State, Effects) {
    if 1 <= page <= s.total && page != s.page {
        (
            State { page: page as usize, pan_x: 0, pan_y: 0, ..s },
            Effects { load: true, ..no_effects() },
        )
    } else {
        (s, no_effects())
    }
}

/// The rendered page takes the place of the one that was shown; where it could not be rendered,
/// that one stays.
pub open spec fn loaded(s: State, glyphs: Option<Seq<Glyph>>, limits: (i32, i32)) -> (
    State,
    Effects,
) {
    match glyphs {
        Some(glyphs) => (
            within(State { shown: true, glyphs, selection: None, press: None, ..s }, limits),
            Effects { rescale: true, ..refresh() },
        ),
        None => (s, Effects { retitle: true, ..no_effects() }),
    }
}

/// A new document: the viewer stays at its page, or goes to the last one where the document has
/// become shorter.
pub open spec fn replaced(s: State, total: usize, pages: Seq<Seq<(char, usize)>>) -> (
    State,
    Effects,
) {
    (
        State {
            total,
            page: if total == 0 {
                1
            } else if s.page > total {
                total
            } else {
                s.page
            },
            pages,
            error: false,
            ..s
        },
        Effects { load: true, ..no_effects() },
    )
}

/// The first match at index `i` or after it that is on page `origin` or after it.
pub open spec fn first_from(matches: Seq<SearchMatch>, origin: usize, i: int) -> Option<int>
    decreases matches.len() - i,
{
    if i < 0 || i >= matches.len() {
        None
    } else if matches[i].page >= origin {
        Some(i)
    } else {
        first_from(matches, origin, i + 1)
    }
}

/// Going to a match.
pub open spec fn activated(s: State, index: int) -> (State, Effects) {
    let (next, effects) = showing(
        State { active: Some(index), ..s },
        s.matches[index].page as int,
    );
    (next, both(effects, refresh()))
}

/// Searching again, and going to the first match from the page on where the search began; to the
/// first match of all where there is none.
pub open spec fn rebuilt(s: State) -> (State, Effects) {
    let found = State {
        matches: search::document_matches(s.pages, s.query),
        active: None,
        ..s
    };
    if found.matches.len() == 0 {
        (found, refresh())
    } else {
        match first_from(found.matches, s.origin, 0) {
            Some(index) => activated(found, index),
            None => activated(found, 0),
        }
    }
}

/// The rendered page of a new document takes its place, and the document is searched again.
pub open spec fn reloaded(s: State, glyphs: Option<Seq<Glyph>>, limits: (i32, i32)) -> (
    State,
    Effects,
) {
    let (showing, first) = loaded(s, glyphs, limits);
    let (found, second) = rebuilt(showing);
    (found, both(first, second))
}

/// The index after or before `current` among `len`, from the last on to the first and back.
pub open spec fn neighbour(current: int, len: int, forward: bool) -> int {
    if forward {
        if current + 1 == len {
            0
        } else {
            current + 1
        }
    } else if current == 0 {
        len - 1
    } else {
        current - 1
    }
}

/// Going to the next or the previous match.
pub open spec fn stepped(s: State, forward: bool) -> (State, Effects) {
    if s.matches.len() == 0 {
        (s, no_effects())
    } else {
        let current = match s.active {
            Some(index) => index,
            None => 0,
        };
        activated(s, neighbour(current, s.matches.len() as int, forward))
    }
}

/// Moving the page within its limits.
pub open spec fn panned(s: State, dx: int, dy: int, limits: (i32, i32)) -> (State, Effects) {
    (
        State {
            pan_x: clamped(s.pan_x + dx, limits.0),
            pan_y: clamped(s.pan_y + dy, limits.1),
            ..s
        },
        Effects { redraw: true, ..no_effects() },
    )
}

/// Moving the page up or down, and going on to the next or the previous page at an edge.
pub open spec fn scrolled(s: State, dy: int, limits: (i32, i32)) -> (State, Effects) {
    if dy < 0 && s.pan_y <= -limits.1 {
        showing(s, s.page + 1)
    } else if dy > 0 && s.pan_y >= limits.1 {
        showing(s, s.page - 1)
    } else {
        panned(s, 0, dy, limits)
    }
}

/// A key of the keyboard.
#[derive(Debug)]
pub enum Key {
    Escape,
    Enter,
    Backspace,
    Space,
    ArrowDown,
    ArrowUp,
    ArrowLeft,
    ArrowRight,
    PageDown,
    PageUp,
    Home,
    End,
    /// A key that stands for characters.
    Character(String),
    Other,
}

/// What the keyboard reports.
#[derive(Debug)]
pub struct KeyInput {
    /// Whether the key went down.
    pub pressed: bool,
    /// Whether the key is held.
    pub repeat: bool,
    /// The modifiers that are held.
    pub control: bool,
    pub alt: bool,
    pub logo: bool,
    /// Whether it is the key in the place of the letter C.
    pub copy_key: bool,
    pub key: Key,
    /// The text that the key gives.
    pub text: Option<String>,
}

/// What a key asks for.
#[derive(Clone, Copy, Debug, PartialEq, Eq, Structural)]
pub enum Command {
    Nothing,
    Copy,
    Quit,
    Scroll(i32),
    Pan(i32),
    NextPage,
    PreviousPage,
    FirstPage,
    LastPage,
    StartSearch,
    CancelSearch,
    FinishSearch,
    EraseLetter,
    TypeText,
    NextMatch,
    PreviousMatch,
    ZoomIn,
    ZoomOut,
    Fit,
}

/// How far a key moves the page.
pub const STEP: i32 = 80;

/// The length from which on a query takes no more text.
pub const QUERY_LENGTH: usize = 128;

/// Whether a text holds no control codes.
pub open spec fn is_printable(text: Seq<char>) -> bool {
    forall|i: int| 0 <= i < text.len() ==> !escape::is_control(#[trigger] text[i])
}

/// What a key asks for while the query is being typed.
pub open spec fn editing_command(s: State, input: KeyInput) -> Command {
    match input.key {
        Key::Escape => Command::CancelSearch,
        Key::Enter => Command::FinishSearch,
        Key::Backspace => Command::EraseLetter,
        _ => if !input.control && !input.alt && !input.logo && s.query.len() < QUERY_LENGTH
            && input.text is Some && is_printable(input.text->0@) {
            Command::TypeText
        } else {
            Command::Nothing
        },
    }
}

/// What a character asks for while the document is read.
pub open spec fn letter_command(c: char, has_matches: bool) -> Command {
    if c == 'q' {
        Command::Quit
    } else if c == '/' {
        Command::StartSearch
    } else if c == 'n' {
        if has_matches {
            Command::NextMatch
        } else {
            Command::NextPage
        }
    } else if c == 'N' {
        if has_matches {
            Command::PreviousMatch
        } else {
            Command::Nothing
        }
    } else if c == ' ' {
        Command::NextPage
    } else if c == 'p' {
        Command::PreviousPage
    } else if c == 'g' {
        Command::FirstPage
    } else if c == 'G' {
        Command::LastPage
    } else if c == 'j' {
        Command::Scroll((-STEP) as i32)
    } else if c == 'k' {
        Command::Scroll(STEP)
    } else if c == 'h' {
        Command::Pan(STEP)
    } else if c == 'l' {
        Command::Pan((-STEP) as i32)
    } else if c == '+' || c == '=' {
        Command::ZoomIn
    } else if c == '-' || c == '_' {
        Command::ZoomOut
    } else if c == 'f' || c == '0' {
        Command::Fit
    } else {
        Command::Nothing
    }
}

/// What a key asks for while the document is read.
pub open spec fn reading_command(s: State, key: Key) -> Command {
    match key {
        Key::Escape => if s.query.len() > 0 {
            Command::CancelSearch
        } else {
            Command::Quit
        },
        Key::ArrowDown => Command::Scroll((-STEP) as i32),
        Key::ArrowUp => Command::Scroll(STEP),
        Key::ArrowLeft => Command::Pan(STEP),
        Key::ArrowRight => Command::Pan((-STEP) as i32),
        Key::PageDown => Command::NextPage,
        Key::Space => Command::NextPage,
        Key::PageUp => Command::PreviousPage,
        Key::Backspace => Command::PreviousPage,
        Key::Home => Command::FirstPage,
        Key::End => Command::LastPage,
        Key::Character(text) => if text@.len() == 1 {
            letter_command(text@[0], s.matches.len() > 0)
        } else {
            Command::Nothing
        },
        Key::Enter => Command::Nothing,
        Key::Other => Command::Nothing,
    }
}

/// What the keyboard asks for. A held key counts only while the query is being typed.
pub open spec fn command_of(s: State, input: KeyInput) -> Command {
    if !input.pressed || (input.repeat && !s.editing) {
        Command::Nothing
    } else if input.control && input.copy_key {
        Command::Copy
    } else if s.editing {
        editing_command(s, input)
    } else {
        reading_command(s, input.key)
    }
}

/// What a command does.
pub open spec fn performed(s: State, command: Command, text: Seq<char>, limits: (i32, i32)) -> (
    State,
    Effects,
) {
    match command {
        Command::Nothing => (s, no_effects()),
        Command::Copy => (s, Effects { copy: true, ..no_effects() }),
        Command::Quit => (s, Effects { exit: true, ..no_effects() }),
        Command::Scroll(dy) => scrolled(s, dy as int, limits),
        Command::Pan(dx) => panned(s, dx as int, 0, limits),
        Command::NextPage => showing(s, s.page + 1),
        Command::PreviousPage => showing(s, s.page - 1),
        Command::FirstPage => showing(s, 1),
        Command::LastPage => showing(s, s.total as int),
        Command::StartSearch => rebuilt(
            State { editing: true, origin: s.page, query: Seq::empty(), ..s },
        ),
        Command::CancelSearch => rebuilt(State { editing: false, query: Seq::empty(), ..s }),
        Command::FinishSearch => (State { editing: false, ..s }, refresh()),
        Command::EraseLetter => rebuilt(
            State {
                query: if s.query.len() > 0 {
                    s.query.drop_last()
                } else {
                    s.query
                },
                ..s
            },
        ),
        Command::TypeText => rebuilt(State { query: s.query + text, ..s }),
        Command::NextMatch => stepped(s, true),
        Command::PreviousMatch => stepped(s, false),
        Command::ZoomIn => (s, Effects { zoom: Zoom::In, ..no_effects() }),
        Command::ZoomOut => (s, Effects { zoom: Zoom::Out, ..no_effects() }),
        Command::Fit => (
            State { pan_x: 0, pan_y: 0, ..s },
            Effects { zoom: Zoom::Fit, rescale: true, ..refresh() },
        ),
    }
}

/// The text that a key types.
pub open spec fn typed(input: KeyInput) -> Seq<char> {
    match input.text {
        Some(text) => text@,
        None => Seq::empty(),
    }
}

/// How the viewer answers to a key.
pub open spec fn pressed(s: State, input: KeyInput, limits: (i32, i32)) -> (State, Effects) {
    performed(s, command_of(s, input), typed(input), limits)
}

/// The text that is selected.
pub open spec fn selected_text(s: State) -> Seq<char> {
    match s.selection {
        Some((anchor, focus)) => selection::copied(s.glyphs, anchor, focus),
        None => Seq::empty(),
    }
}

/// The mouse button goes down on a glyph, or on none.
pub open spec fn clicked(s: State, hit: Option<usize>) -> State {
    State { press: hit, selection: None, ..s }
}

/// The mouse has come nearest to a glyph, and may be far from where the button went down.
pub open spec fn dragged(s: State, far: bool, focus: Option<usize>) -> State {
    match (s.press, focus) {
        (Some(anchor), Some(index)) if far => State { selection: Some((anchor, index)), ..s },
        _ => s,
    }
}

/// The mouse button goes up.
pub open spec fn released(s: State) -> State {
    State { press: None, ..s }
}

/// The window has another size, or the page another magnification.
pub open spec fn resizing(s: State, limits: (i32, i32)) -> State {
    State {
        pan_x: clamped(s.pan_x as int, limits.0),
        pan_y: clamped(s.pan_y as int, limits.1),
        ..s
    }
}

/// The document could not be compiled.
pub open spec fn failing(s: State) -> State {
    State { error: true, ..s }
}

/// The compiler has given up.
pub open spec fn stopping(s: State) -> State {
    State { stopped: true, ..s }
}

/// Keeps a number between `-limit` and `limit`.
fn clamp(value: i64, limit: i32) -> (result: i32)
    requires
        0 <= limit,
    ensures
        result == clamped(value as int, limit),
{
    if value < -(limit as i64) {
        -limit
    } else if value > limit as i64 {
        limit
    } else {
        value as i32
    }
}

/// How far a page that is `page` long can be moved from the middle of a window that is `window`
/// long.
pub open spec fn movement(page: u32, window: u32) -> int {
    if page > window {
        (page - window) / 2
    } else {
        0
    }
}

/// How far a page can be moved from the middle of the window.
pub fn pan_limits(page: (u32, u32), window: (u32, u32)) -> (limits: (i32, i32))
    ensures
        limits.0 == movement(page.0, window.0),
        limits.1 == movement(page.1, window.1),
        0 <= limits.0,
        0 <= limits.1,
{
    let x: u32 = page.0.saturating_sub(window.0) / 2;
    let y: u32 = page.1.saturating_sub(window.1) / 2;
    (x as i32, y as i32)
}

/// Whether all characters can stand in a query.
fn printable(text: &str) -> (answer: bool)
    ensures
        answer == is_printable(text@),
{
    let list = chars_of(text);
    let mut i: usize = 0;
    while i < list.len()
        invariant
            i <= list@.len(),
            list@ == text@,
            forall|k: int| 0 <= k < i ==> !escape::is_control(#[trigger] text@[k]),
        decreases list@.len() - i,
    {
        if control(list[i]) {
            assert(escape::is_control(text@[i as int]));
            return false;
        }
        i += 1;
    }
    true
}

impl Viewer {
    /// The viewer before the first compilation.
    pub fn new() -> (viewer: Self)
        ensures
            viewer@ == start(),
            viewer@.wf(),
            viewer@.searched(),
    {
        let viewer = Viewer {
            total: 0,
            page: 1,
            shown: false,
            text: TextIndex::new(),
            pan_x: 0,
            pan_y: 0,
            selection: None,
            press: None,
            query: String::new(),
            editing: false,
            origin: 1,
            matches: Vec::new(),
            pages: Vec::new(),
            active: None,
            error: false,
            stopped: false,
        };
        proof {
            assert(viewer@.pages =~= Seq::empty());
            assert(viewer@.query =~= Seq::empty());
            assert(chars::trimmed(viewer@.query).len() == 0);
        }
        viewer
    }

    /// Takes a new document with `total` pages and their text. Once the current page has been
    /// rendered, [`Viewer::document_loaded`] takes it and searches the new text.
    pub fn ready(&mut self, total: usize, pages: Vec<SearchPage>) -> (effects: Effects)
        requires
            old(self)@.wf(),
        ensures
            final(self)@ == replaced(old(self)@, total, search::pages_view(pages@)).0,
            effects == replaced(old(self)@, total, search::pages_view(pages@)).1,
            final(self)@.wf(),
    {
        self.total = total;
        if total == 0 {
            self.page = 1;
        } else if self.page > total {
            self.page = total;
        }
        self.pages = pages;
        self.error = false;
        let mut effects = Effects::new();
        effects.load = true;
        effects
    }

    /// Marks that the document could not be compiled.
    pub fn failed(&mut self) -> (effects: Effects)
        requires
            old(self)@.wf(),
        ensures
            final(self)@ == (State { error: true, ..old(self)@ }),
            final(self)@ == failing(old(self)@),
            effects == (Effects { retitle: true, ..no_effects() }),
            final(self)@.wf(),
    {
        self.error = true;
        let mut effects = Effects::new();
        effects.retitle = true;
        effects
    }

    /// Marks that the compiler has given up.
    pub fn fatal(&mut self) -> (effects: Effects)
        requires
            old(self)@.wf(),
        ensures
            final(self)@ == (State { stopped: true, ..old(self)@ }),
            final(self)@ == stopping(old(self)@),
            effects == (Effects { retitle: true, ..no_effects() }),
            final(self)@.wf(),
    {
        self.stopped = true;
        let mut effects = Effects::new();
        effects.retitle = true;
        effects
    }

    /// Takes the text of the current page once it has been rendered, or nothing if it could not
    /// be. `limits` tells how far the rendered page can be moved.
    pub fn page_loaded(&mut self, text: Option<TextIndex>, limits: (i32, i32)) -> (effects: Effects)
        requires
            old(self)@.wf(),
            0 <= limits.0,
            0 <= limits.1,
        ensures
            text is Some ==> final(self)@ == loaded(old(self)@, Some(text->0@), limits).0 && effects
                == loaded(old(self)@, Some(text->0@), limits).1,
            text is None ==> final(self)@ == loaded(old(self)@, None, limits).0 && effects
                == loaded(old(self)@, None, limits).1,
            final(self)@.wf(),
    {
        let mut effects = Effects::new();
        if let Some(index) = text {
            self.shown = true;
            self.text = index;
            self.selection = None;
            self.press = None;
            self.clamp_pan(limits);
            effects.rescale = true;
            effects.redraw = true;
        }
        effects.retitle = true;
        effects
    }

    /// Takes the text of the current page of a new document once it has been rendered, or nothing
    /// if it could not be, and searches the document again.
    pub fn document_loaded(&mut self, text: Option<TextIndex>, limits: (i32, i32)) -> (effects:
        Effects)
        requires
            old(self)@.wf(),
            0 <= limits.0,
            0 <= limits.1,
        ensures
            text is Some ==> final(self)@ == reloaded(old(self)@, Some(text->0@), limits).0
                && effects == reloaded(old(self)@, Some(text->0@), limits).1,
            text is None ==> final(self)@ == reloaded(old(self)@, None, limits).0 && effects
                == reloaded(old(self)@, None, limits).1,
            final(self)@.wf(),
            final(self)@.searched(),
    {
        let shown = self.page_loaded(text, limits);
        let found = self.rebuild_search();
        shown.and(&found)
    }

    /// Keeps the page within the limits of its movement.
    pub fn clamp_pan(&mut self, limits: (i32, i32))
        requires
            0 <= limits.0,
            0 <= limits.1,
        ensures
            final(self)@ == within(old(self)@, limits),
    {
        self.pan_x = clamp(self.pan_x as i64, limits.0);
        self.pan_y = clamp(self.pan_y as i64, limits.1);
    }

    /// Adapts to a new size of the window, in which the page can be moved as far as `limits` tells.
    pub fn resized(&mut self, limits: (i32, i32)) -> (effects: Effects)
        requires
            old(self)@.wf(),
            0 <= limits.0,
            0 <= limits.1,
        ensures
            final(self)@ == within(old(self)@, limits),
            final(self)@ == resizing(old(self)@, limits),
            effects == (Effects { redraw: true, rescale: true, ..no_effects() }),
            final(self)@.wf(),
    {
        self.clamp_pan(limits);
        let mut effects = Effects::new();
        effects.redraw = true;
        effects.rescale = true;
        effects
    }

    /// Adapts to a new magnification, at which the page can be moved as far as `limits` tells.
    pub fn zoomed(&mut self, limits: (i32, i32)) -> (effects: Effects)
        requires
            old(self)@.wf(),
            0 <= limits.0,
            0 <= limits.1,
        ensures
            final(self)@ == within(old(self)@, limits),
            final(self)@ == resizing(old(self)@, limits),
            effects == (Effects { rescale: true, ..refresh() }),
            final(self)@.wf(),
    {
        let mut effects = self.resized(limits);
        effects.retitle = true;
        effects
    }

    /// Goes to a page, if the document has it.
    pub fn show_page(&mut self, page: usize) -> (effects: Effects)
        requires
            old(self)@.wf(),
        ensures
            final(self)@ == showing(old(self)@, page as int).0,
            effects == showing(old(self)@, page as int).1,
            final(self)@.wf(),
    {
        let mut effects = Effects::new();
        if page == 0 || page > self.total || page == self.page {
            return effects;
        }
        self.page = page;
        self.pan_x = 0;
        self.pan_y = 0;
        effects.load = true;
        effects
    }

    /// Searches the document again and goes to the first match from the page on where the search
    /// began.
    pub fn rebuild_search(&mut self) -> (effects: Effects)
        requires
            old(self)@.wf(),
        ensures
            final(self)@ == rebuilt(old(self)@).0,
            effects == rebuilt(old(self)@).1,
            final(self)@.wf(),
            final(self)@.searched(),
    {
        self.active = None;
        self.matches = find_document_matches(&self.pages, self.query.as_str());
        let ghost found = self@;
        assert(found == (State {
            matches: search::document_matches(old(self)@.pages, old(self)@.query),
            active: None,
            ..old(self)@
        }));
        if self.matches.len() == 0 {
            let mut effects = Effects::new();
            effects.retitle = true;
            effects.redraw = true;
            return effects;
        }
        let mut index: usize = 0;
        while index < self.matches.len() && self.matches[index].page < self.origin
            invariant
                self@ == found,
                index <= self.matches@.len(),
                first_from(found.matches, found.origin, 0) == first_from(
                    found.matches,
                    found.origin,
                    index as int,
                ),
            decreases self.matches@.len() - index,
        {
            index += 1;
        }
        if index == self.matches.len() {
            index = 0;
        }
        self.activate_match(index)
    }

    /// Goes to a match.
    fn activate_match(&mut self, index: usize) -> (effects: Effects)
        requires
            old(self)@.wf(),
            index < old(self)@.matches.len(),
        ensures
            final(self)@ == activated(old(self)@, index as int).0,
            effects == activated(old(self)@, index as int).1,
            final(self)@.wf(),
    {
        let found = self.matches[index];
        self.active = Some(index);
        let mut effects = self.show_page(found.page);
        effects.retitle = true;
        effects.redraw = true;
        effects
    }

    /// Goes to the next match, or to the previous one.
    pub fn next_match(&mut self, forward: bool) -> (effects: Effects)
        requires
            old(self)@.wf(),
        ensures
            final(self)@ == stepped(old(self)@, forward).0,
            effects == stepped(old(self)@, forward).1,
            final(self)@.wf(),
    {
        let len: usize = self.matches.len();
        if len == 0 {
            return Effects::new();
        }
        let current: usize = match self.active {
            Some(index) => index,
            None => 0,
        };
        let index: usize = if forward {
            if current == len - 1 {
                0
            } else {
                current + 1
            }
        } else if current == 0 {
            len - 1
        } else {
            current - 1
        };
        self.activate_match(index)
    }

    /// Moves the page.
    pub fn pan(&mut self, dx: i32, dy: i32, limits: (i32, i32)) -> (effects: Effects)
        requires
            old(self)@.wf(),
            0 <= limits.0,
            0 <= limits.1,
        ensures
            final(self)@ == panned(old(self)@, dx as int, dy as int, limits).0,
            effects == panned(old(self)@, dx as int, dy as int, limits).1,
            final(self)@.wf(),
    {
        self.pan_x = clamp(self.pan_x as i64 + dx as i64, limits.0);
        self.pan_y = clamp(self.pan_y as i64 + dy as i64, limits.1);
        let mut effects = Effects::new();
        effects.redraw = true;
        effects
    }

    /// Moves the page up or down, or goes on to the adjacent page at an edge.
    pub fn scroll(&mut self, dy: i32, limits: (i32, i32)) -> (effects: Effects)
        requires
            old(self)@.wf(),
            0 <= limits.0,
            0 <= limits.1,
        ensures
            final(self)@ == scrolled(old(self)@, dy as int, limits).0,
            effects == scrolled(old(self)@, dy as int, limits).1,
            final(self)@.wf(),
    {
        if dy < 0 && self.pan_y <= -limits.1 {
            self.next_page()
        } else if dy > 0 && self.pan_y >= limits.1 {
            self.show_page(self.page - 1)
        } else {
            self.pan(0, dy, limits)
        }
    }

    /// Goes to the next page, if there is one.
    fn next_page(&mut self) -> (effects: Effects)
        requires
            old(self)@.wf(),
        ensures
            final(self)@ == showing(old(self)@, old(self)@.page + 1).0,
            effects == showing(old(self)@, old(self)@.page + 1).1,
            final(self)@.wf(),
    {
        if self.page < self.total {
            self.show_page(self.page + 1)
        } else {
            Effects::new()
        }
    }

    /// Answers to the mouse button: it goes down on the glyph `hit`, or on none.
    pub fn mouse_down(&mut self, hit: Option<usize>) -> (effects: Effects)
        requires
            old(self)@.wf(),
        ensures
            final(self)@ == (State { press: hit, selection: None, ..old(self)@ }),
            final(self)@ == clicked(old(self)@, hit),
            effects == (Effects { redraw: true, ..no_effects() }),
            final(self)@.wf(),
    {
        self.press = hit;
        self.selection = None;
        let mut effects = Effects::new();
        effects.redraw = true;
        effects
    }

    /// Answers to the mouse: it has come nearest to the glyph `focus`, if to any. A selection
    /// begins once it is `far` enough from where the button went down.
    pub fn mouse_moved(&mut self, far: bool, focus: Option<usize>) -> (effects: Effects)
        requires
            old(self)@.wf(),
        ensures
            final(self)@ == if far && old(self)@.press is Some && focus is Some {
                State { selection: Some((old(self)@.press->0, focus->0)), ..old(self)@ }
            } else {
                old(self)@
            },
            final(self)@ == dragged(old(self)@, far, focus),
            final(self)@ == old(self)@ || effects.redraw,
            effects == (Effects {
                redraw: far && old(self)@.press is Some && focus is Some,
                ..no_effects()
            }),
            final(self)@.wf(),
    {
        let mut effects = Effects::new();
        if far {
            if let Some(anchor) = self.press {
                if let Some(index) = focus {
                    self.selection = Some((anchor, index));
                    effects.redraw = true;
                }
            }
        }
        effects
    }

    /// Answers to the mouse button: it goes up.
    pub fn mouse_up(&mut self)
        requires
            old(self)@.wf(),
        ensures
            final(self)@ == (State { press: None, ..old(self)@ }),
            final(self)@ == released(old(self)@),
            final(self)@.wf(),
    {
        self.press = None;
    }

    /// The text to be copied, if any is selected.
    pub fn copy_selection(&self) -> (copy: Option<String>)
        ensures
            match copy {
                Some(text) => text@ == selected_text(self@) && text@.len() > 0,
                None => selected_text(self@).len() == 0,
            },
    {
        match self.selection {
            Some((anchor, focus)) => {
                let text = self.text.copied_text(anchor, focus);
                if text.as_str().is_empty() {
                    None
                } else {
                    Some(text)
                }
            },
            None => None,
        }
    }

    /// What the keyboard asks for.
    pub fn command(&self, input: &KeyInput) -> (command: Command)
        ensures
            command == command_of(self@, *input),
    {
        if !input.pressed || (input.repeat && !self.editing) {
            Command::Nothing
        } else if input.control && input.copy_key {
            Command::Copy
        } else if self.editing {
            self.editing_command(input)
        } else {
            self.reading_command(&input.key)
        }
    }

    /// What a key asks for while the query is being typed.
    fn editing_command(&self, input: &KeyInput) -> (command: Command)
        ensures
            command == editing_command(self@, *input),
    {
        match &input.key {
            Key::Escape => Command::CancelSearch,
            Key::Enter => Command::FinishSearch,
            Key::Backspace => Command::EraseLetter,
            _ => {
                if !input.control && !input.alt && !input.logo && chars_of(
                    self.query.as_str(),
                ).len() < QUERY_LENGTH {
                    if let Some(text) = &input.text {
                        if printable(text.as_str()) {
                            return Command::TypeText;
                        }
                    }
                }
                Command::Nothing
            },
        }
    }

    /// What a key asks for while the document is read.
    fn reading_command(&self, key: &Key) -> (command: Command)
        ensures
            command == reading_command(self@, *key),
    {
        match key {
            Key::Escape => if self.query.as_str().is_empty() {
                Command::Quit
            } else {
                Command::CancelSearch
            },
            Key::ArrowDown => Command::Scroll(-STEP),
            Key::ArrowUp => Command::Scroll(STEP),
            Key::ArrowLeft => Command::Pan(STEP),
            Key::ArrowRight => Command::Pan(-STEP),
            Key::PageDown | Key::Space => Command::NextPage,
            Key::PageUp | Key::Backspace => Command::PreviousPage,
            Key::Home => Command::FirstPage,
            Key::End => Command::LastPage,
            Key::Character(text) => {
                let list = chars_of(text.as_str());
                if list.len() == 1 {
                    Self::letter_command(list[0], self.matches.len() > 0)
                } else {
                    Command::Nothing
                }
            },
            Key::Enter | Key::Other => Command::Nothing,
        }
    }

    /// What a character asks for while the document is read.
    fn letter_command(c: char, has_matches: bool) -> (command: Command)
        ensures
            command == letter_command(c, has_matches),
    {
        match c {
            'q' => Command::Quit,
            '/' => Command::StartSearch,
            'n' => if has_matches {
                Command::NextMatch
            } else {
                Command::NextPage
            },
            'N' => if has_matches {
                Command::PreviousMatch
            } else {
                Command::Nothing
            },
            ' ' => Command::NextPage,
            'p' => Command::PreviousPage,
            'g' => Command::FirstPage,
            'G' => Command::LastPage,
            'j' => Command::Scroll(-STEP),
            'k' => Command::Scroll(STEP),
            'h' => Command::Pan(STEP),
            'l' => Command::Pan(-STEP),
            '+' | '=' => Command::ZoomIn,
            '-' | '_' => Command::ZoomOut,
            'f' | '0' => Command::Fit,
            _ => Command::Nothing,
        }
    }

    /// Answers to the keyboard. `limits` tells how far the page can be moved.
    pub fn key(&mut self, input: &KeyInput, limits: (i32, i32)) -> (effects: Effects)
        requires
            old(self)@.wf(),
            0 <= limits.0,
            0 <= limits.1,
        ensures
            final(self)@ == pressed(old(self)@, *input, limits).0,
            effects == pressed(old(self)@, *input, limits).1,
            final(self)@.wf(),
    {
        let command = self.command(input);
        let text: &str = match &input.text {
            Some(text) => text.as_str(),
            None => "",
        };
        proof {
            reveal_strlit("");
            assert(text@ =~= typed(*input));
        }
        self.perform(command, text, limits)
    }

    /// Does what a command asks for.
    fn perform(&mut self, command: Command, text: &str, limits: (i32, i32)) -> (effects: Effects)
        requires
            old(self)@.wf(),
            0 <= limits.0,
            0 <= limits.1,
        ensures
            final(self)@ == performed(old(self)@, command, text@, limits).0,
            effects == performed(old(self)@, command, text@, limits).1,
            final(self)@.wf(),
    {
        let mut effects = Effects::new();
        match command {
            Command::Nothing => {},
            Command::Copy => {
                effects.copy = true;
            },
            Command::Quit => {
                effects.exit = true;
            },
            Command::Scroll(dy) => {
                effects = self.scroll(dy, limits);
            },
            Command::Pan(dx) => {
                effects = self.pan(dx, 0, limits);
            },
            Command::NextPage => {
                effects = self.next_page();
            },
            Command::PreviousPage => {
                effects = self.show_page(self.page - 1);
            },
            Command::FirstPage => {
                effects = self.show_page(1);
            },
            Command::LastPage => {
                effects = self.show_page(self.total);
            },
            Command::StartSearch => {
                self.editing = true;
                self.origin = self.page;
                self.query = String::new();
                effects = self.rebuild_search();
            },
            Command::CancelSearch => {
                self.editing = false;
                self.query = String::new();
                effects = self.rebuild_search();
            },
            Command::FinishSearch => {
                self.editing = false;
                effects.redraw = true;
                effects.retitle = true;
            },
            Command::EraseLetter => {
                self.erase_letter();
                effects = self.rebuild_search();
            },
            Command::TypeText => {
                self.query.append(text);
                effects = self.rebuild_search();
            },
            Command::NextMatch => {
                effects = self.next_match(true);
            },
            Command::PreviousMatch => {
                effects = self.next_match(false);
            },
            Command::ZoomIn => {
                effects.zoom = Zoom::In;
            },
            Command::ZoomOut => {
                effects.zoom = Zoom::Out;
            },
            Command::Fit => {
                self.pan_x = 0;
                self.pan_y = 0;
                effects.zoom = Zoom::Fit;
                effects.rescale = true;
                effects.redraw = true;
                effects.retitle = true;
            },
        }
        effects
    }

    /// Takes the last character off the query.
    fn erase_letter(&mut self)
        ensures
            final(self)@ == (State {
                query: if old(self)@.query.len() > 0 {
                    old(self)@.query.drop_last()
                } else {
                    old(self)@.query
                },
                ..old(self)@
            }),
    {
        let list = chars_of(self.query.as_str());
        if list.len() > 0 {
            self.query = string_of(&list, 0, list.len() - 1);
            assert(self@.query =~= old(self)@.query.drop_last());
        }
    }
}

/// Whatever a key does, the current page stays a page of the document, and the matches stay those
/// of the query.
pub proof fn keys_keep_the_viewer_valid(s: State, input: KeyInput, limits: (i32, i32))
    requires
        s.wf(),
        s.searched(),
    ensures
        pressed(s, input, limits).0.wf(),
        pressed(s, input, limits).0.searched(),
{
    lemma_performed(s, command_of(s, input), typed(input), limits);
}

proof fn lemma_performed(s: State, command: Command, text: Seq<char>, limits: (i32, i32))
    requires
        s.wf(),
        s.searched(),
    ensures
        performed(s, command, text, limits).0.wf(),
        performed(s, command, text, limits).0.searched(),
{
    match command {
        Command::StartSearch => lemma_rebuilt(
            State { editing: true, origin: s.page, query: Seq::empty(), ..s },
        ),
        Command::CancelSearch => lemma_rebuilt(
            State { editing: false, query: Seq::empty(), ..s },
        ),
        Command::EraseLetter => lemma_rebuilt(
            State {
                query: if s.query.len() > 0 {
                    s.query.drop_last()
                } else {
                    s.query
                },
                ..s
            },
        ),
        Command::TypeText => lemma_rebuilt(State { query: s.query + text, ..s }),
        _ => {},
    }
}

proof fn lemma_first_from(matches: Seq<SearchMatch>, origin: usize, i: int)
    requires
        0 <= i <= matches.len(),
    ensures
        match first_from(matches, origin, i) {
            Some(index) => i <= index < matches.len() && matches[index].page >= origin && forall|
                k: int,
            |
                i <= k < index ==> (#[trigger] matches[k]).page < origin,
            None => forall|k: int|
                i <= k < matches.len() ==> (#[trigger] matches[k]).page < origin,
        },
    decreases matches.len() - i,
{
    if i < matches.len() && matches[i].page < origin {
        lemma_first_from(matches, origin, i + 1);
    }
}

proof fn lemma_rebuilt(s: State)
    requires
        s.wf(),
    ensures
        rebuilt(s).0.wf(),
        rebuilt(s).0.searched(),
{
    let matches = search::document_matches(s.pages, s.query);
    lemma_first_from(matches, s.origin, 0);
}

/// A search goes to the first match that is not before the page where the search began; if all are
/// before it, to the first.
pub proof fn search_goes_to_the_first_match(s: State)
    requires
        search::document_matches(s.pages, s.query).len() > 0,
    ensures
        rebuilt(s).0.matches == search::document_matches(s.pages, s.query),
        rebuilt(s).0.active is Some,
        0 <= rebuilt(s).0.active->0 < rebuilt(s).0.matches.len(),
        ({
            let matches = rebuilt(s).0.matches;
            let active = rebuilt(s).0.active->0;
            ||| matches[active].page >= s.origin && forall|k: int|
                0 <= k < active ==> (#[trigger] matches[k]).page < s.origin
            ||| active == 0 && forall|k: int|
                0 <= k < matches.len() ==> (#[trigger] matches[k]).page < s.origin
        }),
{
    lemma_first_from(search::document_matches(s.pages, s.query), s.origin, 0);
}

/// After going to a match, its page is shown, if the document has it.
pub proof fn active_match_is_shown(s: State, index: int)
    requires
        0 <= index < s.matches.len(),
        1 <= s.matches[index].page <= s.total,
    ensures
        activated(s, index).0.active == Some(index),
        activated(s, index).0.page == s.matches[index].page,
{
}

/// Going to the next match and back, or to the previous one and back, ends at the same match.
pub proof fn matches_step_both_ways(s: State, forward: bool)
    requires
        s.wf(),
        s.active is Some,
    ensures
        stepped(stepped(s, forward).0, !forward).0.active == s.active,
        stepped(stepped(s, forward).0, !forward).0.matches == s.matches,
{
}

/// The viewer after going on to the next match `count` times.
pub open spec fn stepped_times(s: State, count: nat) -> State
    decreases count,
{
    if count == 0 {
        s
    } else {
        stepped(stepped_times(s, (count - 1) as nat), true).0
    }
}

/// From any match on, the next matches are reached in their order, and the first after the last.
pub proof fn matches_are_reached_in_order(s: State, count: nat)
    requires
        s.wf(),
        s.active is Some,
        count <= s.matches.len(),
    ensures
        stepped_times(s, count).active == Some(
            if s.active->0 + count < s.matches.len() {
                s.active->0 + count
            } else {
                s.active->0 + count - s.matches.len()
            },
        ),
        stepped_times(s, count).matches == s.matches,
    decreases count,
{
    if count > 0 {
        matches_are_reached_in_order(s, (count - 1) as nat);
    }
}

/// Going through all matches comes back to the match where it began.
pub proof fn matches_come_round(s: State)
    requires
        s.wf(),
        s.active is Some,
    ensures
        stepped_times(s, s.matches.len()).active == s.active,
        stepped_times(s, s.matches.len()).matches == s.matches,
{
    matches_are_reached_in_order(s, s.matches.len());
}

/// The escape key quits if and only if no search is active; else it ends the search.
pub proof fn escape_ends_the_search_first(s: State, input: KeyInput, limits: (i32, i32))
    requires
        input.key is Escape,
        input.pressed,
        !input.repeat || s.editing,
        !(input.control && input.copy_key),
    ensures
        pressed(s, input, limits).1.exit <==> !s.editing && s.query.len() == 0,
        !pressed(s, input, limits).1.exit ==> pressed(s, input, limits).0.query.len() == 0
            && !pressed(s, input, limits).0.editing && pressed(s, input, limits).0.matches.len()
            == 0 && pressed(s, input, limits).0.active is None,
{
    chars::trimming_leaves_words(Seq::<char>::empty());
}

/// A held key does nothing while the document is read.
pub proof fn held_keys_are_ignored(s: State, input: KeyInput, limits: (i32, i32))
    requires
        input.repeat,
        !s.editing,
    ensures
        pressed(s, input, limits) == (s, no_effects()),
{
}

/// Whether the page is within the limits of its movement.
pub open spec fn is_within(s: State, limits: (i32, i32)) -> bool {
    -limits.0 <= s.pan_x <= limits.0 && -limits.1 <= s.pan_y <= limits.1
}

/// A key does not move the page beyond its limits.
pub proof fn keys_keep_the_page_within(s: State, input: KeyInput, limits: (i32, i32))
    requires
        is_within(s, limits),
    ensures
        is_within(pressed(s, input, limits).0, limits),
{
}

/// Scrolling at the lower edge goes on to the next page, and at the upper edge to the previous one.
pub proof fn scrolling_goes_on_at_an_edge(s: State, dy: int, limits: (i32, i32))
    requires
        s.wf(),
        is_within(s, limits),
    ensures
        dy < 0 && s.pan_y == -limits.1 && s.page < s.total ==> scrolled(s, dy, limits).0.page
            == s.page + 1,
        dy > 0 && s.pan_y == limits.1 && s.page > 1 ==> scrolled(s, dy, limits).0.page == s.page
            - 1,
        dy < 0 && s.pan_y > -limits.1 ==> scrolled(s, dy, limits).0.page == s.page && scrolled(
            s,
            dy,
            limits,
        ).0.pan_y < s.pan_y,
        dy > 0 && s.pan_y < limits.1 ==> scrolled(s, dy, limits).0.page == s.page && scrolled(
            s,
            dy,
            limits,
        ).0.pan_y > s.pan_y,
{
}

/// Going to the next page and back ends at the same page, wherever there is a next page.
pub proof fn pages_step_both_ways(s: State)
    requires
        s.wf(),
        s.page < s.total,
    ensures
        showing(showing(s, s.page + 1).0, s.page as int).0.page == s.page,
        showing(s, s.page + 1).0.page == s.page + 1,
{
}

/// A page that could not be rendered leaves what is shown unchanged.
pub proof fn failed_rendering_keeps_the_page(s: State, limits: (i32, i32))
    ensures
        loaded(s, None, limits).0 == s,
{
}

/// A recompiled document is shown at the same page, as long as it has that page.
pub proof fn recompiling_keeps_the_place(
    s: State,
    total: usize,
    pages: Seq<Seq<(char, usize)>>,
)
    requires
        s.wf(),
        s.page <= total,
    ensures
        replaced(s, total, pages).0.page == s.page,
        replaced(s, total, pages).0.pan_x == s.pan_x,
        replaced(s, total, pages).0.pan_y == s.pan_y,
        replaced(s, total, pages).0.query == s.query,
{
}

/// Once the current page of a new document has been rendered, or could not be, the matches are those
/// of the query in the new document, and the viewer has gone to one of them if there are any: its
/// page is the current one, if the document has it. Nothing of the old document is left to search.
pub proof fn new_documents_are_searched(
    s: State,
    total: usize,
    pages: Seq<Seq<(char, usize)>>,
    glyphs: Option<Seq<Glyph>>,
    limits: (i32, i32),
)
    requires
        s.wf(),
    ensures
        ({
            let next = reloaded(replaced(s, total, pages).0, glyphs, limits).0;
            &&& next.wf()
            &&& next.searched()
            &&& next.total == total
            &&& next.pages == pages
            &&& next.query == s.query
            &&& next.matches == search::document_matches(pages, s.query)
            &&& next.active is Some == (next.matches.len() > 0)
            &&& next.active matches Some(index) ==> 0 <= index < next.matches.len() && (1
                <= next.matches[index].page <= total ==> next.page == next.matches[index].page)
        }),
{
    let next = loaded(replaced(s, total, pages).0, glyphs, limits).0;
    lemma_rebuilt(next);
    lemma_first_from(search::document_matches(pages, s.query), s.origin, 0);
}

/// Moved to a limit, a page that is longer than the window has its edge at that of the window: its
/// beginning exactly, and its end to the pixel.
pub proof fn limits_reach_the_edges(length: u32, window: u32)
    requires
        window < length,
    ensures
        canvas::page_start(window, length, movement(length, window) as i32) == 0,
        window <= canvas::page_start(window, length, (-movement(length, window)) as i32) + length
            <= window + 1,
{
}

/// While the query is being typed, a key that gives a text without control codes adds this text to
/// the end of the query, if no modifier is held and the query is shorter than 128 characters. The
/// document is searched for the new query, which goes on being typed. This holds of every key but
/// escape, enter and backspace, the space bar and the arrows included.
pub proof fn typing_extends_the_query(s: State, input: KeyInput, limits: (i32, i32))
    requires
        s.wf(),
        s.editing,
        input.pressed,
        !input.control,
        !input.alt,
        !input.logo,
        !(input.key is Escape),
        !(input.key is Enter),
        !(input.key is Backspace),
        input.text is Some,
        forall|i: int|
            0 <= i < input.text->0@.len() ==> (#[trigger] input.text->0@[i]) >= '\u{20}' && !(
            '\u{7f}' <= input.text->0@[i] <= '\u{9f}'),
        s.query.len() < 128,
    ensures
        ({
            let next = pressed(s, input, limits).0;
            &&& next.query == s.query + input.text->0@
            &&& next.editing
            &&& next.matches == search::document_matches(s.pages, s.query + input.text->0@)
            &&& next == (State {
                query: next.query,
                matches: next.matches,
                active: next.active,
                page: next.page,
                pan_x: next.pan_x,
                pan_y: next.pan_y,
                ..s
            })
        }),
{
    lemma_rebuilt(State { query: s.query + input.text->0@, ..s });
}

/// While the query is being typed, a key other than escape, enter and backspace does nothing if it
/// gives no text or one with control codes, if a modifier is held, or if the query has 128
/// characters already. Only copying goes on.
pub proof fn other_keys_do_not_change_the_query(s: State, input: KeyInput, limits: (i32, i32))
    requires
        s.editing,
        !(input.key is Escape),
        !(input.key is Enter),
        !(input.key is Backspace),
        !(input.control && input.copy_key),
        input.control || input.alt || input.logo || input.text is None || s.query.len() >= 128
            || exists|i: int|
            0 <= i < input.text->0@.len() && ((#[trigger] input.text->0@[i]) < '\u{20}' || '\u{7f}'
                <= input.text->0@[i] <= '\u{9f}'),
    ensures
        pressed(s, input, limits) == (s, no_effects()),
{
}

/// While the query is being typed, no key moves the page or goes to another, but by going to a match:
/// then the page is that of the active match. No key quits, zooms or begins another search.
pub proof fn typing_leaves_the_page(s: State, input: KeyInput, limits: (i32, i32))
    requires
        s.wf(),
        s.editing,
    ensures
        ({
            let (next, effects) = pressed(s, input, limits);
            &&& next.page != s.page ==> next.active is Some && next.page
                == next.matches[next.active->0].page
            &&& next.page == s.page ==> next.pan_x == s.pan_x && next.pan_y == s.pan_y
            &&& next.origin == s.origin
            &&& next.selection == s.selection
            &&& !effects.exit
            &&& effects.zoom is Keep
            &&& effects.load == (next.page != s.page)
        }),
{
    let text = typed(input);
    lemma_rebuilt(State { query: s.query + text, ..s });
    lemma_rebuilt(State { query: s.query.drop_last(), ..s });
    lemma_rebuilt(State { query: Seq::empty(), editing: false, ..s });
    lemma_search_moves(State { query: s.query + text, ..s });
    lemma_search_moves(State { query: s.query, ..s });
    lemma_search_moves(State { query: s.query.drop_last(), ..s });
    lemma_search_moves(State { query: Seq::empty(), editing: false, ..s });
}

proof fn lemma_search_moves(s: State)
    requires
        s.wf(),
    ensures
        ({
            let (next, effects) = rebuilt(s);
            &&& next.page != s.page ==> next.active is Some && next.page
                == next.matches[next.active->0].page && next.pan_x == 0 && next.pan_y == 0
            &&& next.page == s.page ==> next.pan_x == s.pan_x && next.pan_y == s.pan_y
            &&& effects == (Effects { load: next.page != s.page, ..refresh() })
            &&& next.active is Some == (next.matches.len() > 0)
            &&& next.active matches Some(i) ==> 0 <= i < next.matches.len() && (1
                <= next.matches[i].page <= s.total ==> next.page == next.matches[i].page)
            &&& next.active is None ==> next.page == s.page
        }),
{
    lemma_first_from(search::document_matches(s.pages, s.query), s.origin, 0);
}

/// A search that finds something goes to the page of the match it goes to, if the document has it, in
/// the middle of the window; else the viewer stays where it is. The rest of the viewer is left as it
/// is, and the window and its title are brought up to date.
pub proof fn searching_goes_to_the_page_of_the_match(s: State)
    requires
        s.wf(),
    ensures
        ({
            let (next, effects) = rebuilt(s);
            &&& next.active is Some == (next.matches.len() > 0)
            &&& next.active matches Some(i) ==> 1 <= next.matches[i].page <= s.total ==> next.page
                == next.matches[i].page
            &&& next.page != s.page ==> next.active is Some && next.page
                == next.matches[next.active->0].page && next.pan_x == 0 && next.pan_y == 0
            &&& next.page == s.page ==> next.pan_x == s.pan_x && next.pan_y == s.pan_y
            &&& next == (State {
                matches: next.matches,
                active: next.active,
                page: next.page,
                pan_x: next.pan_x,
                pan_y: next.pan_y,
                ..s
            })
            &&& effects.load == (next.page != s.page)
            &&& effects.redraw && effects.retitle
            &&& !effects.exit && !effects.copy && !effects.rescale && effects.zoom is Keep
        }),
{
    lemma_search_moves(s);
}

/// Backspace takes the last character off the query, enter ends the typing and keeps query and
/// matches, and escape ends the typing and clears the query.
pub proof fn typing_is_edited_and_ended(s: State, input: KeyInput, limits: (i32, i32))
    requires
        s.wf(),
        s.editing,
        input.pressed,
        !(input.control && input.copy_key),
    ensures
        ({
            let (next, effects) = pressed(s, input, limits);
            &&& input.key is Backspace ==> {
                &&& next.editing
                &&& next.query.len() == if s.query.len() > 0 {
                    s.query.len() - 1
                } else {
                    0
                }
                &&& forall|i: int| 0 <= i < next.query.len() ==> #[trigger] next.query[i]
                    == s.query[i]
                &&& next.searched()
            }
            &&& input.key is Enter ==> next == (State { editing: false, ..s }) && effects.redraw
                && effects.retitle && !effects.load
            &&& input.key is Escape ==> !next.editing && next.query.len() == 0 && next.searched()
        }),
{
    lemma_rebuilt(State { query: s.query.drop_last(), ..s });
    lemma_rebuilt(State { query: s.query, ..s });
    lemma_rebuilt(State { query: Seq::empty(), editing: false, ..s });
}

/// Whether a key was pressed anew while the document is read, and not to copy.
pub open spec fn is_read_key(s: State, input: KeyInput) -> bool {
    &&& !s.editing
    &&& input.pressed
    &&& !input.repeat
    &&& !(input.control && input.copy_key)
}

/// Whether a key is the given character.
pub open spec fn is_character(input: KeyInput, c: char) -> bool {
    input.key matches Key::Character(text) && text@ == seq![c]
}

/// The keys for pages go to the next, the previous, the first or the last page, as far as the
/// document has it, and show it in the middle of the window. They change nothing else, and a page is
/// loaded if and only if another one is gone to. `n` is such a key only where there are no matches.
pub proof fn page_keys_turn_pages(s: State, input: KeyInput, limits: (i32, i32))
    requires
        s.wf(),
        is_read_key(s, input),
    ensures
        ({
            let (next, effects) = pressed(s, input, limits);
            let forward = input.key is PageDown || input.key is Space || is_character(input, ' ')
                || (is_character(input, 'n') && s.matches.len() == 0);
            let back = input.key is PageUp || input.key is Backspace || is_character(input, 'p');
            let first = input.key is Home || is_character(input, 'g');
            let last = input.key is End || is_character(input, 'G');
            &&& forward ==> next.page == if s.page < s.total {
                s.page + 1
            } else {
                s.page as int
            }
            &&& back ==> next.page == if s.page > 1 && s.page <= s.total {
                s.page - 1
            } else {
                s.page as int
            }
            &&& first ==> next.page == 1
            &&& last ==> next.page == if s.total > 0 {
                s.total
            } else {
                s.page
            }
            &&& forward || back || first || last ==> {
                &&& next.page != s.page ==> next.pan_x == 0 && next.pan_y == 0
                &&& next.page == s.page ==> next.pan_x == s.pan_x && next.pan_y == s.pan_y
                &&& next == (State {
                    page: next.page,
                    pan_x: next.pan_x,
                    pan_y: next.pan_y,
                    ..s
                })
                &&& effects == (Effects { load: next.page != s.page, ..no_effects() })
            }
        }),
{
}

/// A number kept between two limits is the number itself within them, and else the nearer of them.
pub proof fn numbers_are_kept_within(value: int, limit: i32)
    requires
        0 <= limit,
    ensures
        -limit <= value <= limit ==> clamped(value, limit) == value,
        value > limit ==> clamped(value, limit) == limit,
        value < -limit ==> clamped(value, limit) == -limit,
{
}

/// `l` and the right arrow move the page by 80 pixels to the left, `h` and the left arrow to the
/// right, as far as its limits allow, and nothing else.
pub proof fn horizontal_keys_pan(s: State, input: KeyInput, limits: (i32, i32))
    requires
        is_read_key(s, input),
        0 <= limits.0,
        0 <= limits.1,
        is_within(s, limits),
    ensures
        ({
            let (next, effects) = pressed(s, input, limits);
            let left = input.key is ArrowLeft || is_character(input, 'h');
            let right = input.key is ArrowRight || is_character(input, 'l');
            &&& left ==> next.pan_x == if s.pan_x + 80 < limits.0 {
                s.pan_x + 80
            } else {
                limits.0 as int
            }
            &&& right ==> next.pan_x == if s.pan_x - 80 > -limits.0 {
                s.pan_x - 80
            } else {
                -limits.0
            }
            &&& left || right ==> next == (State { pan_x: next.pan_x, ..s }) && effects == (
            Effects { redraw: true, ..no_effects() })
        }),
{
}

/// `j` and the down arrow move the page up by 80 pixels as far as its limits allow, or go to the next
/// page where the lower edge is reached already; `k` and the up arrow move it down, or go to the
/// previous page where the upper edge is reached.
pub proof fn vertical_keys_scroll(s: State, input: KeyInput, limits: (i32, i32))
    requires
        s.wf(),
        is_read_key(s, input),
        0 <= limits.0,
        0 <= limits.1,
        is_within(s, limits),
    ensures
        ({
            let (next, effects) = pressed(s, input, limits);
            let down = input.key is ArrowDown || is_character(input, 'j');
            let up = input.key is ArrowUp || is_character(input, 'k');
            &&& down && s.pan_y > -limits.1 ==> next.page == s.page && next.pan_y == if s.pan_y - 80
                > -limits.1 {
                s.pan_y - 80
            } else {
                -limits.1
            }
            &&& up && s.pan_y < limits.1 ==> next.page == s.page && next.pan_y == if s.pan_y + 80
                < limits.1 {
                s.pan_y + 80
            } else {
                limits.1 as int
            }
            &&& down && s.pan_y == -limits.1 ==> next.page == if s.page < s.total {
                s.page + 1
            } else {
                s.page as int
            }
            &&& up && s.pan_y == limits.1 ==> next.page == if 1 < s.page <= s.total {
                s.page - 1
            } else {
                s.page as int
            }
            &&& down || up ==> {
                &&& next.page == s.page ==> next.pan_x == s.pan_x
                &&& next.page != s.page ==> next.pan_x == 0 && next.pan_y == 0
                &&& next == (State {
                    page: next.page,
                    pan_x: next.pan_x,
                    pan_y: next.pan_y,
                    ..s
                })
                &&& effects.load == (next.page != s.page)
                &&& next.pan_y != s.pan_y && next.page == s.page ==> effects.redraw
                &&& !effects.exit && effects.zoom is Keep && !effects.copy
            }
        }),
{
}

/// `/` begins a search from the current page with an empty query, which is being typed from then on
/// and finds nothing.
pub proof fn slash_begins_a_search(s: State, input: KeyInput, limits: (i32, i32))
    requires
        s.wf(),
        is_read_key(s, input),
        is_character(input, '/'),
    ensures
        pressed(s, input, limits).0 == (State {
            editing: true,
            origin: s.page,
            query: Seq::empty(),
            matches: Seq::empty(),
            active: None,
            ..s
        }),
        pressed(s, input, limits).1.redraw,
        pressed(s, input, limits).1.retitle,
        !pressed(s, input, limits).1.load,
{
    assert(chars::trimmed(Seq::<char>::empty()).len() == 0);
}

/// After a search that has found something, `n` goes to the next match and `N` to the previous one,
/// from the last to the first and back, and to the page of the match. Without matches `N` does
/// nothing.
pub proof fn match_keys_step_through_matches(s: State, input: KeyInput, limits: (i32, i32))
    requires
        s.wf(),
        is_read_key(s, input),
    ensures
        ({
            let (next, effects) = pressed(s, input, limits);
            let len = s.matches.len() as int;
            let current = match s.active {
                Some(index) => index,
                None => 0,
            };
            let steps = len > 0 && (is_character(input, 'n') || is_character(input, 'N'));
            &&& len > 0 && is_character(input, 'n') ==> next.active == Some((current + 1) % len)
            &&& len > 0 && is_character(input, 'N') ==> next.active == Some(
                (current + len - 1) % len,
            )
            &&& steps ==> {
                &&& 1 <= next.matches[next.active->0].page <= s.total ==> next.page
                    == next.matches[next.active->0].page
                &&& next.page != s.page ==> next.page == next.matches[next.active->0].page
                    && next.pan_x == 0 && next.pan_y == 0
                &&& next.page == s.page ==> next.pan_x == s.pan_x && next.pan_y == s.pan_y
                &&& next == (State {
                    active: next.active,
                    page: next.page,
                    pan_x: next.pan_x,
                    pan_y: next.pan_y,
                    ..s
                })
                &&& effects == (Effects { load: next.page != s.page, ..refresh() })
            }
            &&& len == 0 && is_character(input, 'N') ==> next == s && effects == no_effects()
        }),
{
    let len = s.matches.len() as int;
    if len > 0 {
        let current = match s.active {
            Some(index) => index,
            None => 0,
        };
        if current + 1 == len {
            vstd::arithmetic::div_mod::lemma_mod_self_0(len);
        } else {
            vstd::arithmetic::div_mod::lemma_small_mod((current + 1) as nat, len as nat);
        }
        if current == 0 {
            vstd::arithmetic::div_mod::lemma_small_mod((len - 1) as nat, len as nat);
        } else {
            vstd::arithmetic::div_mod::lemma_small_mod((current - 1) as nat, len as nat);
            vstd::arithmetic::div_mod::lemma_mod_add_multiples_vanish(current - 1, len);
            assert(current + len - 1 == len + (current - 1));
        }
    }
}

/// `+` and `=` ask for a larger page, `-` and `_` for a smaller one, and leave the viewer as it is;
/// `f` and `0` ask for a page that fits the window, in the middle of it. `q` quits.
pub proof fn other_keys_zoom_and_quit(s: State, input: KeyInput, limits: (i32, i32))
    requires
        is_read_key(s, input),
    ensures
        ({
            let (next, effects) = pressed(s, input, limits);
            &&& is_character(input, '+') || is_character(input, '=') ==> next == s && effects == (
            Effects { zoom: Zoom::In, ..no_effects() })
            &&& is_character(input, '-') || is_character(input, '_') ==> next == s && effects == (
            Effects { zoom: Zoom::Out, ..no_effects() })
            &&& is_character(input, 'f') || is_character(input, '0') ==> next == (State {
                pan_x: 0,
                pan_y: 0,
                ..s
            }) && effects.zoom is Fit && effects.redraw && effects.rescale && effects.retitle
                && !effects.load && !effects.exit
            &&& is_character(input, 'q') ==> next == s && effects == (Effects {
                exit: true,
                ..no_effects()
            })
        }),
{
}

/// A key quits only if it is `q` or escape, and only while the document is read.
pub proof fn no_other_key_quits(s: State, input: KeyInput, limits: (i32, i32))
    requires
        s.wf(),
        pressed(s, input, limits).1.exit,
    ensures
        is_read_key(s, input),
        is_character(input, 'q') || (input.key is Escape && s.query.len() == 0),
        pressed(s, input, limits).0 == s,
{
    let text = typed(input);
    lemma_search_moves(State { query: s.query + text, ..s });
    lemma_search_moves(State { query: s.query, ..s });
    lemma_search_moves(State { query: s.query.drop_last(), ..s });
    lemma_search_moves(State { query: Seq::empty(), editing: false, ..s });
    lemma_search_moves(State { query: Seq::empty(), editing: true, origin: s.page, ..s });
    if let Key::Character(key) = input.key {
        if key@.len() == 1 {
            assert(key@ =~= seq![key@[0]]);
        }
    }
}

/// Keys without a meaning, and more than one character at once, do nothing while the document is
/// read; and no key does anything when it goes up.
pub proof fn unknown_keys_do_nothing(s: State, input: KeyInput, limits: (i32, i32))
    ensures
        !input.pressed ==> pressed(s, input, limits) == (s, no_effects()),
        is_read_key(s, input) && (input.key is Enter || input.key is Other || (input.key matches
            Key::Character(text) && text@.len() != 1)) ==> pressed(s, input, limits) == (
            s,
            no_effects(),
        ),
        is_read_key(s, input) && (input.key matches Key::Character(text) && text@.len() == 1
            && !"q/nN pgGjkhl+=-_f0"@.contains(text@[0])) ==> pressed(s, input, limits) == (
            s,
            no_effects(),
        ),
{
    reveal_strlit("q/nN pgGjkhl+=-_f0");
    let known = "q/nN pgGjkhl+=-_f0"@;
    assert(known[0] == 'q');
    assert(known[1] == '/');
    assert(known[2] == 'n');
    assert(known[3] == 'N');
    assert(known[4] == ' ');
    assert(known[5] == 'p');
    assert(known[6] == 'g');
    assert(known[7] == 'G');
    assert(known[8] == 'j');
    assert(known[9] == 'k');
    assert(known[10] == 'h');
    assert(known[11] == 'l');
    assert(known[12] == '+');
    assert(known[13] == '=');
    assert(known[14] == '-');
    assert(known[15] == '_');
    assert(known[16] == 'f');
    assert(known[17] == '0');
}

/// Control and the key of the letter C copy, whether a query is being typed or not, and change
/// nothing. Nothing else copies.
pub proof fn only_control_and_c_copy(s: State, input: KeyInput, limits: (i32, i32))
    requires
        s.wf(),
    ensures
        input.pressed && (!input.repeat || s.editing) && input.control && input.copy_key ==> pressed(
            s,
            input,
            limits,
        ) == (s, Effects { copy: true, ..no_effects() }),
        pressed(s, input, limits).1.copy ==> input.pressed && input.control && input.copy_key,
{
    let text = typed(input);
    lemma_search_moves(State { query: s.query + text, ..s });
    lemma_search_moves(State { query: s.query, ..s });
    lemma_search_moves(State { query: s.query.drop_last(), ..s });
    lemma_search_moves(State { query: Seq::empty(), editing: false, ..s });
    lemma_search_moves(State { query: Seq::empty(), editing: true, origin: s.page, ..s });
}

/// A rendered page is shown with its own text, without the selection of the page before it, and within
/// its limits; the page number and the search stay.
pub proof fn loaded_pages_are_shown(s: State, glyphs: Seq<Glyph>, limits: (i32, i32))
    requires
        0 <= limits.0,
        0 <= limits.1,
    ensures
        ({
            let (next, effects) = loaded(s, Some(glyphs), limits);
            &&& next.shown
            &&& next.glyphs == glyphs
            &&& next.selection is None
            &&& next.press is None
            &&& is_within(next, limits)
            &&& is_within(s, limits) ==> next.pan_x == s.pan_x && next.pan_y == s.pan_y
            &&& next == (State {
                shown: true,
                glyphs,
                selection: None,
                press: None,
                pan_x: next.pan_x,
                pan_y: next.pan_y,
                ..s
            })
            &&& effects == (Effects { rescale: true, ..refresh() })
            &&& loaded(s, None, limits).1 == (Effects { retitle: true, ..no_effects() })
        }),
{
}

/// A new document has the given pages and is not in error. Where it has become shorter, its last page
/// is shown, and the first where it has none. What is shown, selected and searched for stays until
/// the page has been loaded, which it always is.
pub proof fn new_documents_replace_the_old(
    s: State,
    total: usize,
    pages: Seq<Seq<(char, usize)>>,
)
    requires
        s.wf(),
    ensures
        ({
            let (next, effects) = replaced(s, total, pages);
            &&& next.total == total
            &&& next.pages == pages
            &&& !next.error
            &&& 0 < total < s.page ==> next.page == total
            &&& s.page <= total ==> next.page == s.page
            &&& total == 0 ==> next.page == 1
            &&& effects == (Effects { load: true, ..no_effects() })
            &&& next == (State { total, pages, error: false, page: next.page, ..s })
        }),
{
}

/// A page can be moved by half of what it is longer than the window, and not at all where it fits.
pub proof fn pages_that_fit_do_not_move(length: u32, window: u32)
    ensures
        length <= window ==> movement(length, window) == 0,
        length > window ==> 2 * movement(length, window) <= length - window < 2 * movement(
            length,
            window,
        ) + 2,
{
}

/// Before the first compilation the viewer shows nothing, at the first page, and searches nothing.
pub proof fn viewers_start_empty()
    ensures
        start().page == 1 && start().total == 0 && !start().shown,
        start().query.len() == 0 && !start().editing && start().matches.len() == 0,
        start().active is None && start().selection is None && start().press is None,
        start().glyphs.len() == 0 && start().pages.len() == 0,
        start().pan_x == 0 && start().pan_y == 0 && !start().error && !start().stopped,
{
}

/// Dragging from one glyph to another selects from the first to the second, whatever was selected
/// before and wherever the mouse has been between; the selection stays when the button goes up, and
/// what it copies is the text of these glyphs. Moving the mouse without the button, or close to where
/// it went down, selects nothing.
pub proof fn dragging_selects(s: State, anchor: usize, between: usize, focus: usize)
    ensures
        ({
            let down = clicked(s, Some(anchor));
            let moved = dragged(dragged(down, true, Some(between)), true, Some(focus));
            &&& down.selection is None
            &&& dragged(down, false, Some(focus)) == down
            &&& dragged(down, true, None) == down
            &&& moved.selection == Some((anchor, focus))
            &&& released(moved).selection == Some((anchor, focus))
            &&& selected_text(released(moved)) == selection::copied(s.glyphs, anchor, focus)
            &&& dragged(released(moved), true, Some(between)) == released(moved)
            &&& released(moved) == (State {
                selection: Some((anchor, focus)),
                press: None,
                ..s
            })
        }),
{
}

/// A click clears the selection, on a glyph or beside all of them; beside them no selection begins.
/// Nothing is then copied.
pub proof fn clicking_clears_the_selection(s: State, hit: Option<usize>, focus: Option<usize>)
    ensures
        ({
            let next = released(clicked(s, hit));
            &&& next == (State { selection: None, press: None, ..s })
            &&& selected_text(next).len() == 0
            &&& dragged(clicked(s, None), true, focus).selection is None
        }),
{
}

/// After a failed compilation the last good page stays as it is, with its selection and search, and
/// the error is told until a compilation succeeds.
pub proof fn failures_keep_the_last_good_page(
    s: State,
    total: usize,
    pages: Seq<Seq<(char, usize)>>,
)
    ensures
        failing(s) == (State { error: true, ..s }),
        stopping(s) == (State { stopped: true, ..s }),
        !replaced(failing(s), total, pages).0.error,
        replaced(failing(s), total, pages).0 == replaced(s, total, pages).0,
{
}

/// In a window of another size, or at another magnification, the page stays where it is as far as its
/// limits allow, and nothing else changes.
pub proof fn resizing_keeps_the_page_within(s: State, limits: (i32, i32))
    requires
        0 <= limits.0,
        0 <= limits.1,
    ensures
        is_within(resizing(s, limits), limits),
        is_within(s, limits) ==> resizing(s, limits) == s,
        s.pan_x > limits.0 ==> resizing(s, limits).pan_x == limits.0,
        s.pan_x < -limits.0 ==> resizing(s, limits).pan_x == -limits.0,
        s.pan_y > limits.1 ==> resizing(s, limits).pan_y == limits.1,
        s.pan_y < -limits.1 ==> resizing(s, limits).pan_y == -limits.1,
        -limits.0 <= s.pan_x <= limits.0 ==> resizing(s, limits).pan_x == s.pan_x,
        -limits.1 <= s.pan_y <= limits.1 ==> resizing(s, limits).pan_y == s.pan_y,
        resizing(s, limits) == (State {
            pan_x: resizing(s, limits).pan_x,
            pan_y: resizing(s, limits).pan_y,
            ..s
        }),
{
}

/// The page is moved by just as much as it is asked to, or up to its limit, in both directions at once.
/// Scrolling within the limits moves it in the same way, up and down only; at an edge it turns the
/// page instead.
pub proof fn pages_move_by_as_much_as_asked(s: State, dx: int, dy: int, limits: (i32, i32))
    requires
        s.wf(),
        0 <= limits.0,
        0 <= limits.1,
        is_within(s, limits),
    ensures
        ({
            let (next, effects) = panned(s, dx, dy, limits);
            &&& -limits.0 <= s.pan_x + dx <= limits.0 ==> next.pan_x == s.pan_x + dx
            &&& s.pan_x + dx > limits.0 ==> next.pan_x == limits.0
            &&& s.pan_x + dx < -limits.0 ==> next.pan_x == -limits.0
            &&& -limits.1 <= s.pan_y + dy <= limits.1 ==> next.pan_y == s.pan_y + dy
            &&& s.pan_y + dy > limits.1 ==> next.pan_y == limits.1
            &&& s.pan_y + dy < -limits.1 ==> next.pan_y == -limits.1
            &&& next == (State { pan_x: next.pan_x, pan_y: next.pan_y, ..s })
            &&& effects == (Effects { redraw: true, ..no_effects() })
        }),
        (dy < 0 && s.pan_y > -limits.1) || (dy > 0 && s.pan_y < limits.1) || dy == 0 ==> scrolled(
            s,
            dy,
            limits,
        ) == panned(s, 0, dy, limits),
        dy < 0 && s.pan_y == -limits.1 ==> scrolled(s, dy, limits) == showing(s, s.page + 1),
        dy > 0 && s.pan_y == limits.1 ==> scrolled(s, dy, limits) == showing(s, s.page - 1),
{
}

/// A page of the document is gone to and shown in the middle of the window; one that it does not have
/// is not, and going to the current page does nothing.
pub proof fn pages_are_gone_to(s: State, page: int)
    ensures
        ({
            let (next, effects) = showing(s, page);
            &&& 1 <= page <= s.total && page != s.page ==> next == (State {
                page: page as usize,
                pan_x: 0,
                pan_y: 0,
                ..s
            }) && effects == (Effects { load: true, ..no_effects() })
            &&& page < 1 || page > s.total || page == s.page ==> next == s && effects
                == no_effects()
        }),
{
}

/// With the page of a new document the title is always brought up to date, the page is scaled anew if
/// it could be rendered, and another page is loaded if the search goes to one.
pub proof fn new_documents_are_drawn(
    s: State,
    glyphs: Option<Seq<Glyph>>,
    limits: (i32, i32),
)
    requires
        s.wf(),
    ensures
        ({
            let (next, effects) = reloaded(s, glyphs, limits);
            &&& effects.rescale == (glyphs is Some)
            &&& effects.redraw && effects.retitle
            &&& effects.load == (next.page != s.page)
            &&& !effects.exit && !effects.copy && effects.zoom is Keep
            &&& glyphs matches Some(shown) ==> next.glyphs == shown && next.shown
                && next.selection is None && next.press is None
            &&& glyphs is None ==> next.glyphs == s.glyphs && next.shown == s.shown
                && next.selection == s.selection
        }),
{
    lemma_search_moves(loaded(s, glyphs, limits).0);
}

/// The effects of two steps are those of the first and those of the second.
pub proof fn effects_add_up(first: Effects, second: Effects)
    ensures
        both(first, second).load <==> first.load || second.load,
        both(first, second).redraw <==> first.redraw || second.redraw,
        both(first, second).retitle <==> first.retitle || second.retitle,
        both(first, second).rescale <==> first.rescale || second.rescale,
        both(first, second).copy <==> first.copy || second.copy,
        both(first, second).exit <==> first.exit || second.exit,
        both(first, second).zoom == first.zoom,
        both(first, no_effects()) == first,
        !no_effects().load && !no_effects().redraw && !no_effects().retitle && !no_effects().rescale
            && !no_effects().copy && !no_effects().exit && no_effects().zoom is Keep,
        refresh().redraw && refresh().retitle && !refresh().load && !refresh().exit,
{
}

/// While the document is read, escape clears a search and leaves the viewer where it is; without a
/// search it quits.
pub proof fn escape_clears_the_search(s: State, input: KeyInput, limits: (i32, i32))
    requires
        s.wf(),
        is_read_key(s, input),
        input.key is Escape,
    ensures
        s.query.len() > 0 ==> pressed(s, input, limits).0 == (State {
            query: Seq::empty(),
            matches: Seq::empty(),
            active: None,
            ..s
        }) && pressed(s, input, limits).1 == refresh(),
        s.query.len() == 0 ==> pressed(s, input, limits) == (
            s,
            Effects { exit: true, ..no_effects() },
        ),
{
    assert(chars::trimmed(Seq::<char>::empty()).len() == 0);
}

} // verus!
