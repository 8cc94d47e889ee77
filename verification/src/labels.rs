//! What the viewer writes into the window title and the search bar.
use vstd::prelude::*;

use crate::chars::{chars_of, push_decimal, string_of};
use crate::viewer::{State, Viewer};
#[allow(unused_imports)]
use crate::chars;

verus! {

/// What the title says of the compilation.
pub open spec fn status_text(s: State) -> Seq<char> {
    if s.stopped {
        " · compiler stopped"@
    } else if s.error {
        " · error (see terminal)"@
    } else if !s.shown {
        " · compiling…"@
    } else {
        ""@
    }
}

/// Whether there is a search to tell of.
pub open spec fn is_searching(s: State) -> bool {
    s.editing || s.query.len() > 0
}

/// The number of the active match, counted from one, and the number of matches.
pub open spec fn progress_text(s: State) -> Seq<char> {
    let number = match s.active {
        Some(index) => index + 1,
        None => 0,
    };
    chars::decimal(number as nat) + "/"@ + chars::decimal(s.matches.len())
}

/// How many characters of the query the title shows.
pub const TITLE_QUERY: usize = 48;

/// What the title says of the search.
pub open spec fn search_text(s: State) -> Seq<char> {
    if is_searching(s) {
        let query = if s.query.len() > TITLE_QUERY {
            s.query.take(TITLE_QUERY as int)
        } else {
            s.query
        };
        " · /"@ + query + " ("@ + progress_text(s) + ")"@
    } else {
        ""@
    }
}

/// The window title.
pub open spec fn title_text(s: State, filename: Seq<char>, percent: u32) -> Seq<char> {
    let total = if s.total == 0 {
        1nat
    } else {
        s.total as nat
    };
    filename + " · "@ + chars::decimal(s.page as nat) + "/"@ + chars::decimal(total) + " · "@
        + chars::decimal(percent as nat) + "%"@ + status_text(s) + search_text(s) + " · tv"@
}

/// The text of the search bar.
pub open spec fn bar_text(s: State) -> Seq<char> {
    "/"@ + s.query + if s.editing {
        "_"@
    } else {
        ""@
    } + "  "@ + progress_text(s) + if s.editing {
        ""@
    } else {
        "  n/N next/previous"@
    }
}

impl Viewer {
    /// What the title says of the compilation.
    fn status(&self) -> (text: &'static str)
        ensures
            text@ == status_text(self@),
    {
        if self.stopped {
            " · compiler stopped"
        } else if self.error {
            " · error (see terminal)"
        } else if !self.shown {
            " · compiling…"
        } else {
            ""
        }
    }

    /// Tells whether there is a search to tell of.
    fn searching(&self) -> (answer: bool)
        ensures
            answer == is_searching(self@),
    {
        self.editing || !self.query.as_str().is_empty()
    }

    /// Appends the number of the active match and the number of matches.
    fn push_progress(&self, out: &mut String)
        requires
            self@.wf(),
        ensures
            final(out)@ == old(out)@ + progress_text(self@),
    {
        let count: usize = self.matches.len();
        let number: u64 = match self.active {
            Some(index) => (index + 1) as u64,
            None => 0,
        };
        push_decimal(out, number);
        out.append("/");
        push_decimal(out, count as u64);
        assert(out@ =~= old(out)@ + progress_text(self@));
    }

    /// Appends what the title says of the search.
    fn push_search(&self, out: &mut String)
        requires
            self@.wf(),
        ensures
            final(out)@ == old(out)@ + search_text(self@),
    {
        if self.searching() {
            out.append(" · /");
            let query = chars_of(self.query.as_str());
            if query.len() > TITLE_QUERY {
                out.append(string_of(&query, 0, TITLE_QUERY).as_str());
                assert(query@.subrange(0, TITLE_QUERY as int) =~= query@.take(TITLE_QUERY as int));
            } else {
                out.append(self.query.as_str());
            }
            out.append(" (");
            self.push_progress(out);
            out.append(")");
        } else {
            out.append("");
        }
        assert(out@ =~= old(out)@ + search_text(self@));
    }

    /// The window title, for a file with the given name that is shown at `percent` of the size at
    /// which it fits the window.
    pub fn title(&self, filename: &str, percent: u32) -> (title: String)
        requires
            self@.wf(),
        ensures
            title@ == title_text(self@, filename@, percent),
    {
        let mut title = String::new();
        title.append(filename);
        title.append(" · ");
        push_decimal(&mut title, self.page as u64);
        title.append("/");
        let total: usize = if self.total == 0 {
            1
        } else {
            self.total
        };
        push_decimal(&mut title, total as u64);
        title.append(" · ");
        push_decimal(&mut title, percent as u64);
        title.append("%");
        title.append(self.status());
        self.push_search(&mut title);
        title.append(" · tv");
        assert(title@ =~= title_text(self@, filename@, percent));
        title
    }

    /// The text of the search bar, while it is to be seen.
    pub fn search_label(&self) -> (label: Option<String>)
        requires
            self@.wf(),
        ensures
            label is Some <==> is_searching(self@),
            label is Some ==> label->0@ == bar_text(self@),
    {
        if !self.searching() {
            return None;
        }
        let mut label = String::new();
        label.append("/");
        label.append(self.query.as_str());
        label.append(
            if self.editing {
                "_"
            } else {
                ""
            },
        );
        label.append("  ");
        self.push_progress(&mut label);
        label.append(
            if self.editing {
                ""
            } else {
                "  n/N next/previous"
            },
        );
        assert(label@ =~= bar_text(self@));
        Some(label)
    }
}

/// The title tells the file, the current page and the number of pages, the magnification, the state
/// of the compilation and the search, in this order. Of the compilation it tells that the compiler
/// has stopped, else an error, else that no page is shown yet; of the search the first 48 characters
/// of the query and the progress.
pub proof fn titles_tell_page_and_state(s: State, filename: Seq<char>, percent: u32)
    ensures
        ({
            let pages = if s.total > 0 {
                s.total as nat
            } else {
                1
            };
            let head = filename + " · "@ + chars::decimal(s.page as nat) + "/"@ + chars::decimal(
                pages,
            ) + " · "@ + chars::decimal(percent as nat) + "%"@;
            let status = if s.stopped {
                " · compiler stopped"@
            } else if s.error {
                " · error (see terminal)"@
            } else if !s.shown {
                " · compiling…"@
            } else {
                Seq::empty()
            };
            let search = if !s.editing && s.query.len() == 0 {
                Seq::empty()
            } else if s.query.len() <= 48 {
                " · /"@ + s.query + " ("@ + progress_text(s) + ")"@
            } else {
                " · /"@ + s.query.take(48) + " ("@ + progress_text(s) + ")"@
            };
            title_text(s, filename, percent) == head + status + search + " · tv"@
        }),
{
    reveal_strlit("");
    assert(""@ =~= Seq::empty());
}

/// The progress of a search is the number of the active match, counted from one, of the number of
/// matches; without an active match it is zero.
pub proof fn progress_counts_from_one(s: State)
    requires
        s.wf(),
    ensures
        s.active matches Some(index) ==> progress_text(s) == chars::decimal((index + 1) as nat)
            + "/"@ + chars::decimal(s.matches.len()) && 1 <= index + 1 <= s.matches.len(),
        s.active is None ==> progress_text(s) == chars::decimal(0) + "/"@ + chars::decimal(
            s.matches.len(),
        ),
{
}

/// The search bar tells the query and the progress of the search; while the query is being typed a
/// cursor stands behind it, and afterwards the keys for going through the matches are told.
pub proof fn bars_tell_query_and_progress(s: State)
    ensures
        s.editing ==> bar_text(s) == "/"@ + s.query + "_  "@ + progress_text(s),
        !s.editing ==> bar_text(s) == "/"@ + s.query + "  "@ + progress_text(s)
            + "  n/N next/previous"@,
{
    reveal_strlit("");
    reveal_strlit("_");
    reveal_strlit("  ");
    reveal_strlit("_  ");
    assert("_"@ + "  "@ =~= "_  "@);
    if s.editing {
        assert(bar_text(s) =~= "/"@ + s.query + "_  "@ + progress_text(s));
    } else {
        assert(bar_text(s) =~= "/"@ + s.query + "  "@ + progress_text(s)
            + "  n/N next/previous"@);
    }
}

} // verus!
