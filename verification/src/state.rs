//! The state of the interface and what each key does to it.
use vstd::prelude::*;
use crate::avc::aggregate;
use crate::avc::AggDenial;
use crate::ranking::sort_groups;
use crate::ranking::SortKey;
use crate::selinux::EnforceStatus;
use crate::selinux::Source;
use crate::text::chars_of;
use crate::text::has_text;
use crate::text::strip_colons;
use crate::text::spells;
use crate::text::text_of;
use crate::text::trim;
use crate::time::Timestamp;

verus! {

/// How often the mode of the system is read, in seconds.
pub const STATUS_PERIOD: u64 = 2;

/// What the keys are taken for.
#[derive(Debug, Clone, Copy, PartialEq, Eq, Structural)]
pub enum Mode {
    Normal,
    Detail,
    Search,
    Command,
    Help,
}

/// A key that was pressed.
#[derive(Debug, Clone, Copy, PartialEq, Eq, Structural)]
pub enum Key {
    Char(char),
    Backspace,
    Enter,
    Esc,
    Up,
    Down,
    Left,
    Right,
    Other,
}

/// What is left to do after a key.
#[derive(Debug, Clone, Copy, PartialEq, Eq, Structural)]
pub enum Action {
    Stay,
    /// Read the mode and the denials again, and hand them to `App::reload`.
    Reload,
}

/// The state of the interface.
pub struct App {
    pub denials: Vec<AggDenial>,
    /// Indices into `denials` passing the current search.
    pub filtered: Vec<usize>,
    /// Index into `filtered`.
    pub selected: usize,
    pub status: EnforceStatus,
    pub source: Source,
    pub file: Option<String>,
    pub demo: bool,
    pub total_raw: usize,
    pub mode: Mode,
    pub sort: SortKey,
    pub search: String,
    pub command: String,
    pub detail_scroll: u16,
    pub list_height: usize,
    pub message: String,
    pub should_quit: bool,
}

/// The state of the interface, its texts taken as sequences.
#[verifier::ext_equal]
pub struct AppView {
    pub denials: Seq<AggDenial>,
    pub filtered: Seq<usize>,
    pub selected: usize,
    pub status: EnforceStatus,
    pub source: Source,
    pub file: Option<String>,
    pub demo: bool,
    pub total_raw: usize,
    pub mode: Mode,
    pub sort: SortKey,
    pub search: Seq<char>,
    pub command: Seq<char>,
    pub detail_scroll: u16,
    pub list_height: usize,
    pub message: Seq<char>,
    pub should_quit: bool,
}

impl View for App {
    type V = AppView;

    open spec fn view(&self) -> AppView {
        AppView {
            denials: self.denials@,
            filtered: self.filtered@,
            selected: self.selected,
            status: self.status,
            source: self.source,
            file: self.file,
            demo: self.demo,
            total_raw: self.total_raw,
            mode: self.mode,
            sort: self.sort,
            search: self.search@,
            command: self.command@,
            detail_scroll: self.detail_scroll,
            list_height: self.list_height,
            message: self.message@,
            should_quit: self.should_quit,
        }
    }
}

// ---- searching -----------------------------------------------------------

/// A haystack passes a search: it holds the query, or the query is empty.
pub open spec fn passes(blob: Seq<char>, query: Seq<char>) -> bool {
    query.len() == 0 || crate::text::has(blob, query)
}

/// The places among the first `n` haystacks of those that pass, in order.
pub open spec fn passing(blobs: Seq<Seq<char>>, query: Seq<char>, n: int) -> Seq<usize>
    decreases n,
{
    if n <= 0 {
        Seq::empty()
    } else if passes(blobs[n - 1], query) {
        passing(blobs, query, n - 1).push((n - 1) as usize)
    } else {
        passing(blobs, query, n - 1)
    }
}

/// The places of the haystacks that pass a search.
pub fn matching(blobs: &Vec<String>, query: &str) -> (out: Vec<usize>)
    ensures
        out@ == passing(crate::text::texts(blobs@), query@, blobs@.len() as int),
{
    let mut out: Vec<usize> = Vec::new();
    let ghost all = crate::text::texts(blobs@);
    for i in 0..blobs.len()
        invariant
            all == crate::text::texts(blobs@),
            out@ == passing(all, query@, i as int),
    {
        assert(all[i as int] == blobs@[i as int]@);
        if query.is_empty() || has_text(chars_of(blobs[i].as_str()).as_slice(), query) {
            out.push(i);
        }
    }
    out
}

/// The lowercased haystacks of the groups.
pub open spec fn haystacks(denials: Seq<AggDenial>) -> Seq<Seq<char>> {
    denials.map_values(|d: AggDenial| crate::text::lowercase(d@.blob()))
}

/// What a search looks for: its lowercase form, and nothing where it is empty.
pub open spec fn query_of(search: Seq<char>) -> Seq<char> {
    if search.len() == 0 {
        Seq::empty()
    } else {
        crate::text::lowercase(search)
    }
}

/// The places of the groups that pass a search, upper and lower case being the
/// same.
pub open spec fn hits(denials: Seq<AggDenial>, search: Seq<char>) -> Seq<usize> {
    passing(haystacks(denials), query_of(search), denials.len() as int)
}

fn search_blobs(denials: &Vec<AggDenial>) -> (out: Vec<String>)
    ensures
        crate::text::texts(out@) == haystacks(denials@),
        out@.len() == denials@.len(),
        forall|i: int|
            0 <= i < denials@.len() && crate::text::is_ascii((#[trigger] denials@[i])@.blob())
                ==> crate::text::lowercase(denials@[i]@.blob()) == crate::text::folded(
                denials@[i]@.blob(),
            ),
{
    let mut out: Vec<String> = Vec::new();
    let ghost all = haystacks(denials@);
    assert(crate::text::texts(out@) =~= all.take(0));
    for i in 0..denials.len()
        invariant
            all == haystacks(denials@),
            out@.len() == i,
            crate::text::texts(out@) == all.take(i as int),
            forall|k: int|
                0 <= k < i && crate::text::is_ascii((#[trigger] denials@[k])@.blob())
                    ==> crate::text::lowercase(denials@[k]@.blob()) == crate::text::folded(
                    denials@[k]@.blob(),
                ),
    {
        let blob = denials[i].search_blob();
        proof {
            crate::text::lemma_texts_push(out@, blob);
            assert(all[i as int] == blob@);
            assert(all.take(i + 1) =~= all.take(i as int).push(all[i as int]));
        }
        out.push(blob);
    }
    assert(all.take(denials@.len() as int) =~= all);
    out
}

proof fn lemma_passing(blobs: Seq<Seq<char>>, query: Seq<char>, n: int)
    requires
        0 <= n <= blobs.len() <= usize::MAX,
    ensures
        ({
            let s = passing(blobs, query, n);
            &&& s.len() <= n
            &&& forall|k: int| 0 <= k < s.len() ==> (#[trigger] s[k]) < n && passes(
                blobs[s[k] as int],
                query,
            )
            &&& forall|a: int, b: int| 0 <= a < b < s.len() ==> (#[trigger] s[a]) < (
            #[trigger] s[b])
            &&& forall|i: int| 0 <= i < n && passes(#[trigger] blobs[i], query) ==> s.contains(
                i as usize,
            )
        }),
    decreases n,
{
    if n > 0 {
        lemma_passing(blobs, query, n - 1);
        let prev = passing(blobs, query, n - 1);
        let s = passing(blobs, query, n);
        assert forall|i: int| 0 <= i < n && passes(#[trigger] blobs[i], query) implies s.contains(
            i as usize,
        ) by {
            if i < n - 1 {
                let k = prev.index_of(i as usize);
                assert(s[k] == i as usize);
            } else {
                assert(s[s.len() - 1] == i as usize);
            }
        }
    }
}

// ---- steps ---------------------------------------------------------------

impl AppView {
    /// The list shows what passes the search, something of it is selected if
    /// there is anything, and the list is no higher than a screen.
    pub open spec fn wf(self) -> bool {
        &&& self.denials.len() <= usize::MAX
        &&& self.filtered == hits(self.denials, self.search)
        &&& if self.filtered.len() == 0 {
            self.selected == 0
        } else {
            self.selected < self.filtered.len()
        }
        &&& self.list_height <= u16::MAX
    }

    /// The groups are in the order in force.
    pub open spec fn in_order(self) -> bool {
        crate::ranking::is_listed_in_order(self.denials, self.sort)
    }

    /// Of the groups whose haystacks are ASCII, those are listed whose haystacks hold
    /// the search, `A` and `a` being the same, if the search is ASCII too.
    pub open spec fn lists_what_holds_the_search(self) -> bool {
        crate::text::is_ascii(self.search) ==> forall|i: int|
            0 <= i < self.denials.len() && crate::text::is_ascii(
                (#[trigger] self.denials[i])@.blob(),
            ) ==> (self.filtered.contains(i as usize) <==> crate::text::has(
                crate::text::folded(self.denials[i]@.blob()),
                crate::text::folded(self.search),
            ))
    }

    /// The search run again, with the selection kept where it is possible.
    pub open spec fn refiltered(self) -> AppView {
        let filtered = hits(self.denials, self.search);
        AppView {
            filtered,
            selected: if filtered.len() == 0 {
                0
            } else if self.selected >= filtered.len() {
                (filtered.len() - 1) as usize
            } else {
                self.selected
            },
            detail_scroll: 0,
            ..self
        }
    }

    /// The groups sorted, and the search run again.
    pub open spec fn resorted(self) -> AppView {
        AppView {
            denials: crate::order::sorted_by(self.denials, crate::ranking::list_order(self.sort)),
            ..self
        }.refiltered()
    }

    /// The selection moved by `delta`, no further than the ends of the list.
    pub open spec fn moved(self, delta: int) -> AppView {
        if self.filtered.len() == 0 {
            self
        } else {
            let s = self.selected + delta;
            AppView {
                selected: if s < 0 {
                    0
                } else if s >= self.filtered.len() {
                    (self.filtered.len() - 1) as usize
                } else {
                    s as usize
                },
                detail_scroll: 0,
                ..self
            }
        }
    }

    /// Half the height of the list, and one at least.
    pub open spec fn half(self) -> int {
        if self.list_height / 2 < 1 {
            1
        } else {
            (self.list_height / 2) as int
        }
    }

    /// The command as it was meant: without white space around it and without the
    /// colons in front.
    pub open spec fn command_word(self) -> Seq<char> {
        crate::text::trim_colons(crate::text::trimmed(self.command))
    }

    /// The command carried out and the command line emptied. Reloading is left to
    /// be done.
    pub open spec fn commanded(self) -> AppView {
        let word = self.command_word();
        let a = AppView { command: Seq::empty(), ..self };
        if word == "q"@ || word == "quit"@ {
            AppView { should_quit: true, ..a }
        } else if word == "h"@ || word == "help"@ {
            AppView { mode: Mode::Help, ..a }
        } else if word == "sort"@ {
            AppView { sort: a.sort.successor(), ..a }.resorted()
        } else if word == "r"@ || word == "reload"@ || word.len() == 0 {
            a
        } else {
            AppView { message: "unknown command: :"@ + word, ..a }
        }
    }

    /// What is left to do after a command.
    pub open spec fn command_action(self) -> Action {
        let word = self.command_word();
        if word == "r"@ || word == "reload"@ {
            Action::Reload
        } else {
            Action::Stay
        }
    }

    /// A key while the search is typed: it changes the search, which is run
    /// anew, or ends it, keeping or clearing the filter.
    pub open spec fn typed_search(self, key: Key) -> AppView {
        match key {
            Key::Char(c) => AppView { search: self.search.push(c), ..self }.refiltered(),
            Key::Backspace => AppView {
                search: if self.search.len() == 0 {
                    self.search
                } else {
                    self.search.drop_last()
                },
                ..self
            }.refiltered(),
            Key::Enter => AppView { mode: Mode::Normal, ..self },
            Key::Esc => AppView { search: Seq::empty(), mode: Mode::Normal, ..self }.refiltered(),
            _ => self,
        }
    }

    /// A key while a command is typed.
    pub open spec fn typed_command(self, key: Key) -> AppView {
        match key {
            Key::Char(c) => AppView { command: self.command.push(c), ..self },
            Key::Backspace => AppView {
                command: if self.command.len() == 0 {
                    self.command
                } else {
                    self.command.drop_last()
                },
                ..self
            },
            Key::Enter => AppView { mode: Mode::Normal, ..self }.commanded(),
            Key::Esc => AppView { command: Seq::empty(), mode: Mode::Normal, ..self },
            _ => self,
        }
    }

    /// A key over the help text.
    pub open spec fn typed_help(self, key: Key) -> AppView {
        if key == Key::Esc || key == Key::Char('q') || key == Key::Char('?') {
            AppView { mode: Mode::Normal, ..self }
        } else {
            self
        }
    }

    /// A key over the list or the detail of a group.
    pub open spec fn typed_list(self, key: Key, ctrl: bool) -> AppView {
        let detail = self.mode == Mode::Detail;
        if key == Key::Char('q') {
            if detail {
                AppView { mode: Mode::Normal, ..self }
            } else {
                AppView { should_quit: true, ..self }
            }
        } else if key == Key::Char('j') || key == Key::Down {
            self.moved(1)
        } else if key == Key::Char('k') || key == Key::Up {
            self.moved(-1)
        } else if key == Key::Char('g') {
            AppView { selected: 0, ..self }
        } else if key == Key::Char('G') {
            if self.filtered.len() == 0 {
                self
            } else {
                AppView { selected: (self.filtered.len() - 1) as usize, ..self }
            }
        } else if key == Key::Char('d') && ctrl {
            if detail {
                let s = self.detail_scroll + self.half();
                AppView {
                    detail_scroll: if s > u16::MAX {
                        u16::MAX
                    } else {
                        s as u16
                    },
                    ..self
                }
            } else {
                self.moved(self.half())
            }
        } else if key == Key::Char('u') && ctrl {
            if detail {
                let s = self.detail_scroll - self.half();
                AppView {
                    detail_scroll: if s < 0 {
                        0
                    } else {
                        s as u16
                    },
                    ..self
                }
            } else {
                self.moved(-self.half())
            }
        } else if key == Key::Char('s') {
            AppView { sort: self.sort.successor(), ..self }.resorted()
        } else if key == Key::Char('/') {
            AppView { search: Seq::empty(), mode: Mode::Search, ..self }.refiltered()
        } else if key == Key::Char(':') {
            AppView { command: seq![':'], mode: Mode::Command, ..self }
        } else if key == Key::Char('?') {
            AppView { mode: Mode::Help, ..self }
        } else if key == Key::Enter || key == Key::Char('l') || key == Key::Right {
            if self.filtered.len() > 0 {
                AppView { mode: Mode::Detail, ..self }
            } else {
                self
            }
        } else if key == Key::Esc || key == Key::Char('h') || key == Key::Left {
            if detail {
                AppView { mode: Mode::Normal, ..self }
            } else if self.search.len() > 0 {
                AppView { search: Seq::empty(), ..self }.refiltered()
            } else {
                self
            }
        } else {
            self
        }
    }

    /// The state after a key.
    pub open spec fn pressed(self, key: Key, ctrl: bool) -> AppView {
        let a = AppView { message: Seq::empty(), ..self };
        match a.mode {
            Mode::Search => a.typed_search(key),
            Mode::Command => a.typed_command(key),
            Mode::Help => a.typed_help(key),
            Mode::Normal | Mode::Detail => a.typed_list(key, ctrl),
        }
    }

    /// What is left to do after a key.
    pub open spec fn action(self, key: Key) -> Action {
        match self.mode {
            Mode::Command => if key == Key::Enter {
                self.command_action()
            } else {
                Action::Stay
            },
            Mode::Normal | Mode::Detail => if key == Key::Char('r') {
                Action::Reload
            } else {
                Action::Stay
            },
            _ => Action::Stay,
        }
    }
}

proof fn lemma_commands_differ()
    ensures
        forall|w: Seq<char>|
            (w == "r"@ || w == "reload"@) ==> w != "q"@ && w != "quit"@ && w != "h"@ && w != "help"@
                && w != "sort"@ && w.len() > 0,
{
    reveal_strlit("r");
    reveal_strlit("reload");
    reveal_strlit("q");
    reveal_strlit("quit");
    reveal_strlit("h");
    reveal_strlit("help");
    reveal_strlit("sort");
    assert("r"@[0] == 'r' && "reload"@[0] == 'r');
    assert("q"@[0] == 'q' && "quit"@[0] == 'q');
    assert("h"@[0] == 'h' && "help"@[0] == 'h');
    assert("sort"@[0] == 's');
}

proof fn lemma_refiltered_wf(a: AppView)
    requires
        a.denials.len() <= usize::MAX,
        a.list_height <= u16::MAX,
    ensures
        a.refiltered().wf(),
{
    lemma_passing(
        haystacks(a.denials),
        query_of(a.search),
        a.denials.len() as int,
    );
}

proof fn lemma_resorted_wf(a: AppView)
    requires
        a.denials.len() <= usize::MAX,
        a.list_height <= u16::MAX,
    ensures
        a.resorted().wf(),
{
    let p = crate::ranking::list_order(a.sort);
    crate::order::sort_keeps_elements(a.denials, p);
    lemma_refiltered_wf(AppView { denials: crate::order::sorted_by(a.denials, p), ..a });
}

impl App {
    /// The state at the start: sorted by count, without a search.
    pub fn new(
        denials: Vec<AggDenial>,
        total_raw: usize,
        status: EnforceStatus,
        source: Source,
        file: Option<String>,
        demo: bool,
    ) -> (app: App)
        ensures
            app@.wf(),
            app@.in_order(),
            app@.lists_what_holds_the_search(),
            app@.denials.to_multiset() == denials@.to_multiset(),
            app.filtered@ == Seq::new(denials@.len(), |i: int| i as usize),
            app.selected == 0,
            app.status == status,
            app.source == source,
            app.file == file,
            app.demo == demo,
            app.total_raw == total_raw,
            app.mode == Mode::Normal,
            app.sort == SortKey::Count,
            app.search@.len() == 0,
            app.command@.len() == 0,
            app.message@.len() == 0,
            app.detail_scroll == 0,
            !app.should_quit,
            app@ == (AppView {
                denials: denials@,
                filtered: Seq::empty(),
                selected: 0,
                status,
                source,
                file,
                demo,
                total_raw,
                mode: Mode::Normal,
                sort: SortKey::Count,
                search: Seq::empty(),
                command: Seq::empty(),
                detail_scroll: 0,
                list_height: 10,
                message: Seq::empty(),
                should_quit: false,
            }).resorted(),
    {
        let mut app = App {
            denials,
            filtered: Vec::new(),
            selected: 0,
            status,
            source,
            file,
            demo,
            total_raw,
            mode: Mode::Normal,
            sort: SortKey::Count,
            search: String::new(),
            command: String::new(),
            detail_scroll: 0,
            list_height: 10,
            message: String::new(),
            should_quit: false,
        };
        let ghost read = app@;
        app.apply_sort();
        proof {
            crate::order::sort_keeps_elements(
                read.denials,
                crate::ranking::list_order(SortKey::Count),
            );
            empty_search_shows_everything(app@);
        }
        app
    }

    /// The status to display, with a synthetic fallback so that the badge is still
    /// meaningful when running the demo on a system without SELinux; and whether
    /// it is that fallback.
    pub fn display_status(&self) -> (r: (EnforceStatus, bool))
        ensures
            r == shown_status(self@),
    {
        if self.demo && (self.status == EnforceStatus::Disabled || self.status
            == EnforceStatus::Unknown) {
            (EnforceStatus::Enforcing, true)
        } else {
            (self.status, false)
        }
    }

    /// Sorts the groups and runs the search again.
    pub fn apply_sort(&mut self)
        ensures
            final(self)@ == old(self)@.resorted(),
            final(self)@.in_order(),
            final(self)@.lists_what_holds_the_search(),
            old(self).list_height <= u16::MAX ==> final(self)@.wf(),
    {
        assert(self.denials.len() == self.denials@.len());
        proof {
            if self.list_height <= u16::MAX {
                lemma_resorted_wf(self@);
            }
        }
        sort_groups(&mut self.denials, self.sort);
        self.recompute_filter();
        assert(self@ =~= old(self)@.resorted());
    }

    /// Runs the search again.
    pub fn recompute_filter(&mut self)
        ensures
            final(self)@ == old(self)@.refiltered(),
            final(self)@.lists_what_holds_the_search(),
            old(self).list_height <= u16::MAX ==> final(self)@.wf(),
    {
        assert(self.denials.len() == self.denials@.len());
        proof {
            if self.list_height <= u16::MAX {
                lemma_refiltered_wf(self@);
            }
        }
        let query = self.search.as_str().to_lowercase();
        assert(query@ =~= query_of(self.search@));
        self.filtered = matching(&search_blobs(&self.denials), query.as_str());
        if self.filtered.len() == 0 {
            self.selected = 0;
        } else if self.selected >= self.filtered.len() {
            self.selected = self.filtered.len() - 1;
        }
        self.detail_scroll = 0;
        assert(self@ =~= old(self)@.refiltered());
        proof {
            lemma_lists_what_holds(self@);
        }
    }

    /// The selected group, if the list shows any.
    pub fn current(&self) -> (r: Option<&AggDenial>)
        requires
            self@.wf(),
        ensures
            match r {
                Some(d) => self.filtered@.len() > 0 && *d
                    == self.denials@[self.filtered@[self.selected as int] as int],
                None => self.filtered@.len() == 0,
            },
    {
        if self.selected < self.filtered.len() {
            proof {
                list_shows_what_passes(self@);
            }
            Some(&self.denials[self.filtered[self.selected]])
        } else {
            None
        }
    }

    /// Moves the selection, no further than the ends of the list.
    pub fn move_sel(&mut self, delta: isize)
        ensures
            final(self)@ == old(self)@.moved(delta as int),
            old(self)@.lists_what_holds_the_search()
                ==> final(self)@.lists_what_holds_the_search(),
    {
        let n = self.filtered.len();
        if n == 0 {
            return;
        }
        if delta < 0 {
            let back: usize = (-(delta + 1)) as usize;
            if self.selected > back {
                self.selected = self.selected - back - 1;
            } else {
                self.selected = 0;
            }
            if self.selected >= n {
                self.selected = n - 1;
            }
        } else {
            let ahead: usize = delta as usize;
            if self.selected >= n || ahead > n - 1 - self.selected {
                self.selected = n - 1;
            } else {
                self.selected = self.selected + ahead;
            }
        }
        self.detail_scroll = 0;
        assert(self@ =~= old(self)@.moved(delta as int));
    }

    /// Takes what was read after `Action::Reload`: the mode, and the denial text
    /// with the times of its records.
    pub fn reload(
        &mut self,
        status: EnforceStatus,
        text: &str,
        stamps: &Vec<Timestamp>,
        source: Source,
    )
        ensures
            old(self).list_height <= u16::MAX ==> final(self)@.wf(),
            final(self)@.in_order(),
            final(self)@.lists_what_holds_the_search(),
            final(self).status == status,
            final(self).source == source,
            final(self).total_raw == crate::avc::records_of(text@).len(),
            final(self).denials@.len() == crate::avc::groups_of(
                crate::avc::records_of(text@),
                stamps@,
            ).len(),
            final(self).selected == 0,
            final(self).message@ == "reloaded"@,
            final(self).sort == old(self).sort,
            final(self).search@ == old(self).search@,
            final(self).mode == old(self).mode,
            final(self).command@ == old(self).command@,
            final(self).file == old(self).file,
            final(self).demo == old(self).demo,
            final(self).list_height == old(self).list_height,
            final(self).should_quit == old(self).should_quit,
            exists|denials: Seq<AggDenial>|
                crate::avc::group_views(denials) == crate::avc::groups_of(
                    crate::avc::records_of(text@),
                    stamps@,
                ) && final(self)@ == #[trigger] reloaded(
                    old(self)@,
                    status,
                    denials,
                    crate::avc::records_of(text@).len() as usize,
                    source,
                ),
    {
        let (denials, total_raw) = aggregate(text, stamps);
        let ghost read = denials@;
        self.status = status;
        self.denials = denials;
        self.total_raw = total_raw;
        self.source = source;
        self.selected = 0;
        self.apply_sort();
        self.message = "reloaded".to_owned();
        proof {
            crate::order::sort_keeps_elements(read, crate::ranking::list_order(self.sort));
            assert(crate::avc::group_views(read).len() == read.len());
        }
        assert(total_raw == crate::avc::records_of(text@).len() as usize);
        assert(self@ =~= reloaded(old(self)@, status, read, total_raw, source));
    }

    /// Carries out the command that was typed, and says what is left to do.
    pub fn run_command(&mut self) -> (action: Action)
        ensures
            final(self)@ == old(self)@.commanded(),
            old(self)@.lists_what_holds_the_search()
                ==> final(self)@.lists_what_holds_the_search(),
            old(self)@.wf() ==> final(self)@.wf(),
            action == old(self)@.command_action(),
    {
        let chars = chars_of(self.command.as_str());
        let word = strip_colons(trim(chars.as_slice()));
        self.command = String::new();
        let mut action = Action::Stay;
        if spells(word, "q") || spells(word, "quit") {
            self.should_quit = true;
        } else if spells(word, "h") || spells(word, "help") {
            self.mode = Mode::Help;
        } else if spells(word, "sort") {
            self.sort = self.sort.next();
            self.apply_sort();
        } else if spells(word, "r") || spells(word, "reload") {
            action = Action::Reload;
        } else if word.len() > 0 {
            let mut m = "unknown command: :".to_owned();
            m.append(text_of(word).as_str());
            self.message = m;
        }
        proof {
            lemma_commands_differ();
            assert(self@ =~= old(self)@.commanded());
        }
        action
    }

    fn key_in_search(&mut self, key: Key)
        requires
            old(self)@.wf(),
        ensures
            final(self)@ == old(self)@.typed_search(key),
            old(self)@.lists_what_holds_the_search()
                ==> final(self)@.lists_what_holds_the_search(),
            final(self)@.wf(),
    {
        match key {
            Key::Char(c) => {
                self.search.push(c);
                self.recompute_filter();
            },
            Key::Backspace => {
                self.search.pop();
                self.recompute_filter();
            },
            Key::Enter => {
                self.mode = Mode::Normal;
            },
            Key::Esc => {
                self.search = String::new();
                self.recompute_filter();
                self.mode = Mode::Normal;
            },
            _ => {},
        }
        assert(self@ =~= old(self)@.typed_search(key));
    }

    fn key_in_command(&mut self, key: Key) -> (action: Action)
        requires
            old(self)@.wf(),
            old(self).mode == Mode::Command,
        ensures
            final(self)@ == old(self)@.typed_command(key),
            old(self)@.lists_what_holds_the_search()
                ==> final(self)@.lists_what_holds_the_search(),
            final(self)@.wf(),
            action == old(self)@.action(key),
    {
        let mut action = Action::Stay;
        match key {
            Key::Char(c) => {
                self.command.push(c);
            },
            Key::Backspace => {
                self.command.pop();
            },
            Key::Enter => {
                self.mode = Mode::Normal;
                action = self.run_command();
            },
            Key::Esc => {
                self.command = String::new();
                self.mode = Mode::Normal;
            },
            _ => {},
        }
        assert(self@ =~= old(self)@.typed_command(key));
        action
    }

    fn scroll(&mut self, down: bool)
        requires
            old(self)@.wf(),
        ensures
            final(self)@.wf(),
            final(self)@ == old(self)@.typed_list(
                Key::Char(
                    if down {
                        'd'
                    } else {
                        'u'
                    },
                ),
                true,
            ),
            old(self)@.lists_what_holds_the_search()
                ==> final(self)@.lists_what_holds_the_search(),
    {
        let half: usize = if self.list_height / 2 < 1 {
            1
        } else {
            self.list_height / 2
        };
        if self.mode == Mode::Detail {
            let step: u16 = half as u16;
            if down {
                self.detail_scroll = if self.detail_scroll > u16::MAX - step {
                    u16::MAX
                } else {
                    self.detail_scroll + step
                };
            } else {
                self.detail_scroll = if self.detail_scroll < step {
                    0
                } else {
                    self.detail_scroll - step
                };
            }
        } else if down {
            self.move_sel(half as isize);
        } else {
            self.move_sel(-(half as isize));
        }
    }

    fn key_in_list(&mut self, key: Key, ctrl: bool)
        requires
            old(self)@.wf(),
        ensures
            final(self)@ == old(self)@.typed_list(key, ctrl),
            old(self)@.lists_what_holds_the_search()
                ==> final(self)@.lists_what_holds_the_search(),
            final(self)@.wf(),
    {
        match key {
            Key::Char('q') => {
                if self.mode == Mode::Detail {
                    self.mode = Mode::Normal;
                } else {
                    self.should_quit = true;
                }
            },
            Key::Char('j') | Key::Down => self.move_sel(1),
            Key::Char('k') | Key::Up => self.move_sel(-1),
            Key::Char('g') => {
                self.selected = 0;
            },
            Key::Char('G') => {
                if self.filtered.len() > 0 {
                    self.selected = self.filtered.len() - 1;
                }
            },
            Key::Char('d') if ctrl => self.scroll(true),
            Key::Char('u') if ctrl => self.scroll(false),
            Key::Char('s') => {
                self.sort = self.sort.next();
                self.apply_sort();
            },
            Key::Char('/') => {
                self.search = String::new();
                self.recompute_filter();
                self.mode = Mode::Search;
            },
            Key::Char(':') => {
                self.command = String::new();
                self.command.push(':');
                self.mode = Mode::Command;
            },
            Key::Char('?') => {
                self.mode = Mode::Help;
            },
            Key::Enter | Key::Char('l') | Key::Right => {
                if self.current().is_some() {
                    self.mode = Mode::Detail;
                }
            },
            Key::Esc | Key::Char('h') | Key::Left => {
                if self.mode == Mode::Detail {
                    self.mode = Mode::Normal;
                } else if !self.search.as_str().is_empty() {
                    self.search = String::new();
                    self.recompute_filter();
                }
            },
            _ => {},
        }
        assert(self@ =~= old(self)@.typed_list(key, ctrl));
    }

    /// Takes a key, with or without Control, and says what is left to do.
    pub fn handle_key(&mut self, key: Key, ctrl: bool) -> (action: Action)
        requires
            old(self)@.wf(),
        ensures
            final(self)@ == old(self)@.pressed(key, ctrl),
            final(self)@.wf(),
            old(self)@.in_order() ==> final(self)@.in_order(),
            old(self)@.lists_what_holds_the_search()
                ==> final(self)@.lists_what_holds_the_search(),
            action == old(self)@.action(key),
    {
        proof {
            if self@.in_order() {
                keys_keep_the_list_in_order(self@, key, ctrl);
            }
        }
        self.message = String::new();
        let mut action = Action::Stay;
        match self.mode {
            Mode::Search => self.key_in_search(key),
            Mode::Command => {
                action = self.key_in_command(key);
            },
            Mode::Help => {
                if key == Key::Esc || key == Key::Char('q') || key == Key::Char('?') {
                    self.mode = Mode::Normal;
                }
            },
            Mode::Normal | Mode::Detail => {
                self.key_in_list(key, ctrl);
                if key == Key::Char('r') {
                    action = Action::Reload;
                }
            },
        }
        assert(self@ =~= old(self)@.pressed(key, ctrl));
        action
    }

    /// Whether the mode of the system is to be read again, `elapsed` seconds after
    /// it was read last. In the demo it is left as it is.
    pub fn status_due(&self, elapsed: u64) -> (r: bool)
        ensures
            r == (elapsed >= STATUS_PERIOD && !self.demo),
            self.demo ==> !r,
            elapsed < 2 ==> !r,
            elapsed >= 2 && !self.demo ==> r,
    {
        elapsed >= STATUS_PERIOD && !self.demo
    }

    /// Takes the height of the area that the list is drawn in, its border
    /// included.
    pub fn set_list_height(&mut self, area_height: u16)
        ensures
            final(self)@ == (AppView {
                list_height: if area_height < 2 {
                    0
                } else {
                    (area_height - 2) as usize
                },
                ..old(self)@
            }),
            old(self)@.wf() ==> final(self)@.wf(),
    {
        self.list_height = if area_height < 2 {
            0
        } else {
            (area_height - 2) as usize
        };
    }
}

/// The status on the badge, and whether it is made up for the demo.
pub open spec fn shown_status(a: AppView) -> (EnforceStatus, bool) {
    if a.demo && (a.status == EnforceStatus::Disabled || a.status == EnforceStatus::Unknown) {
        (EnforceStatus::Enforcing, true)
    } else {
        (a.status, false)
    }
}

/// The state after a reload.
pub open spec fn reloaded(
    a: AppView,
    status: EnforceStatus,
    denials: Seq<AggDenial>,
    total_raw: usize,
    source: Source,
) -> AppView {
    AppView {
        message: "reloaded"@,
        ..AppView { status, denials, total_raw, source, selected: 0, ..a }.resorted()
    }
}

// ---- laws ----------------------------------------------------------------

/// The list shows the groups that pass the search, all of them, in the order of
/// the groups.
pub proof fn list_shows_what_passes(a: AppView)
    requires
        a.wf(),
    ensures
        forall|k: int|
            0 <= k < a.filtered.len() ==> (#[trigger] a.filtered[k]) < a.denials.len() && passes(
                haystacks(a.denials)[a.filtered[k] as int],
                query_of(a.search),
            ),
        forall|j: int, k: int|
            0 <= j < k < a.filtered.len() ==> (#[trigger] a.filtered[j]) < (#[trigger] a.filtered[k]),
        forall|i: int|
            0 <= i < a.denials.len() && passes(
                #[trigger] haystacks(a.denials)[i],
                query_of(a.search),
            ) ==> a.filtered.contains(i as usize),
{
    lemma_passing(haystacks(a.denials), query_of(a.search), a.denials.len() as int);
}

proof fn lemma_all_pass(blobs: Seq<Seq<char>>, n: int)
    requires
        0 <= n <= blobs.len(),
    ensures
        passing(blobs, Seq::empty(), n) == Seq::new(n as nat, |i: int| i as usize),
    decreases n,
{
    if n > 0 {
        lemma_all_pass(blobs, n - 1);
        assert(Seq::new(n as nat, |i: int| i as usize) =~= Seq::new(
            (n - 1) as nat,
            |i: int| i as usize,
        ).push((n - 1) as usize));
    } else {
        assert(Seq::new(n as nat, |i: int| i as usize) =~= Seq::<usize>::empty());
    }
}

/// Without a search every group is listed.
pub proof fn empty_search_shows_everything(a: AppView)
    requires
        a.wf(),
        a.search.len() == 0,
    ensures
        a.filtered == Seq::new(a.denials.len(), |i: int| i as usize),
{
    lemma_all_pass(haystacks(a.denials), a.denials.len() as int);
}

/// No key changes what was read: the groups are at most listed in another order,
/// and the total, the mode of the system, the source, the file and the choice of
/// the demo stay as they are.
pub proof fn keys_change_nothing_read(a: AppView, key: Key, ctrl: bool)
    ensures
        ({
            let b = a.pressed(key, ctrl);
            &&& b.denials.to_multiset() == a.denials.to_multiset()
            &&& b.total_raw == a.total_raw
            &&& b.status == a.status
            &&& b.source == a.source
            &&& b.file == a.file
            &&& b.demo == a.demo
        }),
{
    crate::order::sort_keeps_elements(
        a.denials,
        crate::ranking::list_order(a.sort.successor()),
    );
}

/// Every key keeps the list in step with the search and the selection in the
/// list.
pub proof fn keys_keep_the_state_sound(a: AppView, key: Key, ctrl: bool)
    requires
        a.wf(),
    ensures
        a.pressed(key, ctrl).wf(),
{
    let b = AppView { message: Seq::empty(), ..a };
    lemma_resorted_wf(AppView { sort: a.sort.successor(), ..b });
    lemma_resorted_wf(
        AppView { sort: a.sort.successor(), command: Seq::empty(), mode: Mode::Normal, ..b },
    );
    lemma_refiltered_wf(AppView { search: Seq::empty(), ..b });
    lemma_refiltered_wf(AppView { search: Seq::empty(), mode: Mode::Search, ..b });
    lemma_refiltered_wf(AppView { search: Seq::empty(), mode: Mode::Normal, ..b });
    match key {
        Key::Char(c) => lemma_refiltered_wf(AppView { search: a.search.push(c), ..b }),
        Key::Backspace => lemma_refiltered_wf(
            AppView {
                search: if a.search.len() == 0 {
                    a.search
                } else {
                    a.search.drop_last()
                },
                ..b
            },
        ),
        _ => {},
    }
}

/// Every key keeps the groups in the order in force, whichever it is then.
pub proof fn keys_keep_the_list_in_order(a: AppView, key: Key, ctrl: bool)
    requires
        a.in_order(),
    ensures
        a.pressed(key, ctrl).in_order(),
{
    crate::ranking::sorted_lists_are_in_order(a.denials, a.sort.successor());
}

/// After a reload the groups that were read are listed, all of them, in the order in
/// force, with the first one selected; the search, the order, the mode of the
/// interface and what was chosen at the start stay as they are.
pub proof fn a_reload_lists_what_was_read(
    a: AppView,
    status: EnforceStatus,
    denials: Seq<AggDenial>,
    total_raw: usize,
    source: Source,
)
    ensures
        ({
            let b = reloaded(a, status, denials, total_raw, source);
            &&& crate::ranking::is_listed_in_order(b.denials, a.sort)
            &&& b.denials.to_multiset() == denials.to_multiset()
            &&& b.filtered == hits(b.denials, a.search)
            &&& b.status == status
            &&& b.source == source
            &&& b.total_raw == total_raw
            &&& b.selected == 0
            &&& b.detail_scroll == 0
            &&& b.message == "reloaded"@
            &&& b.sort == a.sort
            &&& b.search == a.search
            &&& b.mode == a.mode
            &&& b.command == a.command
            &&& b.file == a.file
            &&& b.demo == a.demo
            &&& b.list_height == a.list_height
            &&& b.should_quit == a.should_quit
        }),
{
    crate::ranking::sorted_lists_are_in_order(denials, a.sort);
    crate::order::sort_keeps_elements(denials, crate::ranking::list_order(a.sort));
}

/// A group is listed exactly where the search is empty or the lowercase form of its
/// haystack holds that of the search.
pub proof fn a_search_lists_what_holds_it(a: AppView, i: int)
    requires
        a.wf(),
        0 <= i < a.denials.len(),
    ensures
        a.filtered.contains(i as usize) <==> a.search.len() == 0 || crate::text::has(
            crate::text::lowercase(a.denials[i]@.blob()),
            crate::text::lowercase(a.search),
        ),
{
    list_shows_what_passes(a);
    let blobs = haystacks(a.denials);
    assert(blobs[i] == crate::text::lowercase(a.denials[i]@.blob()));
    if a.filtered.contains(i as usize) {
        let k = a.filtered.index_of(i as usize);
        assert(passes(blobs[a.filtered[k] as int], query_of(a.search)));
        if a.search.len() > 0 && query_of(a.search).len() == 0 {
            let q = query_of(a.search);
            assert(blobs[i].subrange(0, 0) =~= q);
            assert(crate::text::occurs_at(blobs[i], q, 0));
        }
    } else {
        assert(!passes(blobs[i], query_of(a.search)));
    }
}

proof fn lemma_lists_what_holds(a: AppView)
    requires
        a.filtered == hits(a.denials, a.search),
        a.denials.len() <= usize::MAX,
        crate::text::is_ascii(a.search) ==> crate::text::lowercase(a.search) == crate::text::folded(
            a.search,
        ),
        forall|i: int|
            0 <= i < a.denials.len() && crate::text::is_ascii((#[trigger] a.denials[i])@.blob())
                ==> crate::text::lowercase(a.denials[i]@.blob()) == crate::text::folded(
                a.denials[i]@.blob(),
            ),
    ensures
        a.lists_what_holds_the_search(),
{
    let blobs = haystacks(a.denials);
    let query = query_of(a.search);
    lemma_passing(blobs, query, a.denials.len() as int);
    if crate::text::is_ascii(a.search) {
        assert(query =~= crate::text::folded(a.search));
        assert forall|i: int|
            0 <= i < a.denials.len() && crate::text::is_ascii(
                (#[trigger] a.denials[i])@.blob(),
            ) implies (a.filtered.contains(i as usize) <==> crate::text::has(
            crate::text::folded(a.denials[i]@.blob()),
            crate::text::folded(a.search),
        )) by {
            assert(blobs[i] == crate::text::folded(a.denials[i]@.blob()));
            if query.len() == 0 {
                assert(blobs[i].subrange(0, 0) =~= query);
                assert(crate::text::occurs_at(blobs[i], query, 0));
            }
            if a.filtered.contains(i as usize) {
                let k = a.filtered.index_of(i as usize);
                assert(passes(blobs[a.filtered[k] as int], query));
            }
        }
    }
}

/// A text of a group that can be searched for: its executable, a permission, a context,
/// its class, its outcome or one of its paths.
pub open spec fn is_part_of(part: Seq<char>, g: crate::avc::GroupView) -> bool {
    ||| part == g.comm
    ||| part == g.scontext.raw
    ||| part == g.tcontext.raw
    ||| part == g.tclass
    ||| part == g.outcome
    ||| g.perms.contains(part)
    ||| g.paths.contains(part)
}

proof fn lemma_part_is_held(part: Seq<char>, g: crate::avc::GroupView)
    requires
        is_part_of(part, g),
    ensures
        crate::text::has(g.blob(), part),
{
    crate::group_laws::the_haystack_holds_every_part(g);
    if g.perms.contains(part) {
        let k = g.perms.index_of(part);
        assert(crate::text::has(g.blob(), g.perms[k]));
    }
    if g.paths.contains(part) {
        let k = g.paths.index_of(part);
        assert(crate::text::has(g.blob(), g.paths[k]));
    }
}

/// A search for any part of a group lists the group, in upper or in lower case. This is
/// stated of texts whose lowercase forms are made letter by letter.
pub proof fn a_search_finds_a_group_by_each_part(
    a: AppView,
    i: int,
    part: Seq<char>,
    lower: spec_fn(char) -> char,
)
    requires
        a.wf(),
        0 <= i < a.denials.len(),
        is_part_of(part, a.denials[i]@),
        crate::text::lowercase(a.denials[i]@.blob()) == a.denials[i]@.blob().map_values(lower),
        crate::text::lowercase(a.search) == part.map_values(lower),
    ensures
        a.filtered.contains(i as usize),
{
    lemma_part_is_held(part, a.denials[i]@);
    crate::text_laws::holding_outlasts_a_change_of_letters(a.denials[i]@.blob(), part, lower);
    a_search_lists_what_holds_it(a, i);
}

/// In a list that shows what holds the search, an ASCII group is found by each of its
/// parts, in upper or in lower case.
pub proof fn ascii_groups_are_found_by_each_part(a: AppView, i: int, part: Seq<char>)
    requires
        a.lists_what_holds_the_search(),
        0 <= i < a.denials.len(),
        is_part_of(part, a.denials[i]@),
        crate::text::is_ascii(a.denials[i]@.blob()),
        crate::text::is_ascii(a.search),
        crate::text::folded(a.search) == crate::text::folded(part),
    ensures
        a.filtered.contains(i as usize),
{
    lemma_part_is_held(part, a.denials[i]@);
    crate::text_laws::holding_outlasts_a_change_of_letters(
        a.denials[i]@.blob(),
        part,
        |c: char| crate::text::ascii_lower(c),
    );
}

/// Leaving a search with Enter keeps its filter.
pub proof fn enter_keeps_the_filter(a: AppView, ctrl: bool)
    requires
        a.mode == Mode::Search,
    ensures
        ({
            let b = a.pressed(Key::Enter, ctrl);
            &&& b.mode == Mode::Normal
            &&& b.search == a.search
            &&& b.filtered == a.filtered
            &&& b.selected == a.selected
        }),
{
}

/// Leaving a search with Escape clears it, and every group is listed again.
pub proof fn escape_clears_the_filter(a: AppView, ctrl: bool)
    requires
        a.wf(),
        a.mode == Mode::Search,
    ensures
        ({
            let b = a.pressed(Key::Esc, ctrl);
            &&& b.mode == Mode::Normal
            &&& b.search.len() == 0
            &&& b.filtered == Seq::new(a.denials.len(), |i: int| i as usize)
        }),
{
    keys_keep_the_state_sound(a, Key::Esc, ctrl);
    empty_search_shows_everything(a.pressed(Key::Esc, ctrl));
}

/// Backspace undoes a character typed into the search: the search and the list
/// are as before.
pub proof fn backspace_undoes_typing(a: AppView, c: char)
    requires
        a.wf(),
        a.mode == Mode::Search,
    ensures
        ({
            let b = a.pressed(Key::Char(c), false).pressed(Key::Backspace, false);
            &&& b.mode == a.mode
            &&& b.search == a.search
            &&& b.filtered == a.filtered
        }),
{
    assert(a.search.push(c).drop_last() =~= a.search);
}

/// The help text opened from the list closes on any of its keys and leaves the
/// list as it was.
pub proof fn help_opens_and_closes(a: AppView, key: Key)
    requires
        a.mode == Mode::Normal,
        key == Key::Esc || key == Key::Char('q') || key == Key::Char('?'),
    ensures
        a.pressed(Key::Char('?'), false).mode == Mode::Help,
        a.pressed(Key::Char('?'), false).pressed(key, false) == (AppView {
            message: Seq::empty(),
            ..a
        }),
{
}

/// The help command opens the help text.
pub proof fn help_command_opens_help(a: AppView)
    requires
        a.mode == Mode::Command,
        a.command_word() == "help"@ || a.command_word() == "h"@,
    ensures
        a.pressed(Key::Enter, false).mode == Mode::Help,
{
    reveal_strlit("q");
    reveal_strlit("quit");
    reveal_strlit("h");
    reveal_strlit("help");
    assert("q"@[0] == 'q' && "quit"@[0] == 'q');
    assert("h"@[0] == 'h' && "help"@[0] == 'h');
}

/// Asking three times for the next order leads back to the order before.
pub proof fn three_sorts_go_round(a: AppView)
    requires
        a.mode == Mode::Normal || a.mode == Mode::Detail,
    ensures
        a.pressed(Key::Char('s'), false).pressed(Key::Char('s'), false).pressed(
            Key::Char('s'),
            false,
        ).sort == a.sort,
{
}

/// A query passes no more than any query that it holds: typing on narrows the list.
pub proof fn longer_query_passes_less(blob: Seq<char>, query: Seq<char>, longer: Seq<char>)
    requires
        passes(blob, longer),
        crate::text::has(longer, query),
    ensures
        passes(blob, query),
{
    if query.len() > 0 {
        let j = choose|j: int| crate::text::occurs_at(longer, query, j);
        let i = choose|i: int| crate::text::occurs_at(blob, longer, i);
        assert(blob.subrange(i + j, i + j + query.len()) =~= blob.subrange(
            i,
            i + longer.len(),
        ).subrange(j, j + query.len()));
        assert(crate::text::occurs_at(blob, query, i + j));
    }
}

/// A search that holds another one, upper and lower case being the same, lists no
/// more than that one.
pub proof fn longer_search_lists_less(
    denials: Seq<AggDenial>,
    search: Seq<char>,
    longer: Seq<char>,
)
    requires
        denials.len() <= usize::MAX,
        crate::text::has(query_of(longer), query_of(search)),
    ensures
        forall|k: int|
            0 <= k < hits(denials, longer).len() ==> hits(denials, search).contains(
                #[trigger] hits(denials, longer)[k],
            ),
{
    let blobs = haystacks(denials);
    let n = denials.len() as int;
    lemma_passing(blobs, query_of(longer), n);
    lemma_passing(blobs, query_of(search), n);
    assert forall|k: int| 0 <= k < hits(denials, longer).len() implies hits(
        denials,
        search,
    ).contains(#[trigger] hits(denials, longer)[k]) by {
        let i = hits(denials, longer)[k] as int;
        longer_query_passes_less(blobs[i], query_of(search), query_of(longer));
        assert(hits(denials, search).contains(i as usize));
    }
}

proof fn lemma_resorted_shows(a: AppView)
    requires
        a.wf(),
        a.filtered.len() > 0,
    ensures
        forall|sort: SortKey, mode: Mode, command: Seq<char>, message: Seq<char>|
            (#[trigger] AppView { sort, mode, command, message, ..a }.resorted()).filtered.len() > 0,
{
    list_shows_what_passes(a);
    let d = a.denials[a.filtered[0] as int];
    assert forall|sort: SortKey, mode: Mode, command: Seq<char>, message: Seq<char>|
        (#[trigger] AppView { sort, mode, command, message, ..a }.resorted()).filtered.len() > 0 by {
        let b = AppView { sort, mode, command, message, ..a }.resorted();
        let p = crate::ranking::list_order(sort);
        lemma_resorted_wf(AppView { sort, mode, command, message, ..a });
        crate::order::sort_keeps_elements(a.denials, p);
        broadcast use vstd::seq_lib::group_to_multiset_ensures;

        assert(a.denials.contains(d));
        assert(b.denials.to_multiset().count(d) > 0);
        let j = b.denials.index_of(d);
        assert(haystacks(b.denials)[j] == haystacks(a.denials)[a.filtered[0] as int]);
        list_shows_what_passes(b);
        assert(b.filtered.contains(j as usize));
    }
}

/// The detail pane is never left without a denial by a key.
pub proof fn detail_stays_on_a_denial(a: AppView, key: Key, ctrl: bool)
    requires
        a.wf(),
        a.mode == Mode::Detail ==> a.filtered.len() > 0,
    ensures
        a.pressed(key, ctrl).mode == Mode::Detail ==> a.pressed(key, ctrl).filtered.len() > 0,
{
    if a.filtered.len() > 0 {
        lemma_resorted_shows(a);
    }
}

} // verus!
