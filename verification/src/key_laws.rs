//! What each key does.
use vstd::prelude::*;
use crate::ranking::SortKey;
use crate::selinux::EnforceStatus;
use crate::state::Action;
use crate::state::AppView;
use crate::state::Key;
use crate::state::Mode;

verus! {

/// Nothing but the message is gone.
pub open spec fn is_quiet(a: AppView, b: AppView) -> bool {
    b == AppView { message: Seq::empty(), ..a }
}

/// Two states differ in the selection and the scrolling of the detail at most.
pub open spec fn differs_in_place(a: AppView, b: AppView) -> bool {
    is_quiet(AppView { selected: b.selected, detail_scroll: b.detail_scroll, ..a }, b)
}

/// The list or the detail has the keys.
pub open spec fn is_browsing(a: AppView) -> bool {
    a.mode == Mode::Normal || a.mode == Mode::Detail
}

/// The least of two numbers.
pub open spec fn least(a: int, b: int) -> int {
    if a < b {
        a
    } else {
        b
    }
}

/// Half the rows of the list, and one at least.
pub open spec fn half_page(a: AppView) -> int {
    if a.list_height >= 2 {
        a.list_height as int / 2
    } else {
        1
    }
}

// ---- moving --------------------------------------------------------------

/// `j` and Down go one down, `k` and Up one up, and neither leaves the list; the
/// detail is shown from its top again.
pub proof fn one_step_down_or_up(a: AppView, ctrl: bool)
    requires
        a.wf(),
        is_browsing(a),
        a.filtered.len() > 0,
    ensures
        forall|key: Key|
            key == Key::Char('j') || key == Key::Down ==> {
                let b = #[trigger] a.pressed(key, ctrl);
                &&& differs_in_place(a, b)
                &&& b.selected == least(a.selected + 1, a.filtered.len() - 1)
                &&& b.detail_scroll == 0
            },
        forall|key: Key|
            key == Key::Char('k') || key == Key::Up ==> {
                let b = #[trigger] a.pressed(key, ctrl);
                &&& differs_in_place(a, b)
                &&& b.selected == if a.selected == 0 {
                    0
                } else {
                    a.selected - 1
                }
                &&& b.detail_scroll == 0
            },
{
    lemma_list_fits(a);
}

/// `g` goes to the first group and `G` to the last.
pub proof fn to_the_top_or_the_bottom(a: AppView, ctrl: bool)
    requires
        a.wf(),
        is_browsing(a),
        a.filtered.len() > 0,
    ensures
        ({
            let b = a.pressed(Key::Char('g'), ctrl);
            differs_in_place(a, b) && b.selected == 0 && b.detail_scroll == a.detail_scroll
        }),
        ({
            let b = a.pressed(Key::Char('G'), ctrl);
            differs_in_place(a, b) && b.selected == a.filtered.len() - 1 && b.detail_scroll
                == a.detail_scroll
        }),
{
    lemma_list_fits(a);
}

/// Control with `d` or `u` goes half a page down or up over the list, and over an open
/// detail scrolls that instead; without Control the two keys do nothing.
pub proof fn half_a_page_down_or_up(a: AppView)
    requires
        a.wf(),
        is_browsing(a),
    ensures
        ({
            let b = a.pressed(Key::Char('d'), true);
            &&& differs_in_place(a, b)
            &&& a.mode == Mode::Normal && a.filtered.len() > 0 ==> b.selected == least(
                a.selected + half_page(a),
                a.filtered.len() - 1,
            ) && b.detail_scroll == 0
            &&& a.mode == Mode::Detail ==> b.selected == a.selected && b.detail_scroll == least(
                a.detail_scroll + half_page(a),
                0xffff,
            )
        }),
        ({
            let b = a.pressed(Key::Char('u'), true);
            &&& differs_in_place(a, b)
            &&& a.mode == Mode::Normal && a.filtered.len() > 0 ==> b.selected == if a.selected
                < half_page(a) {
                0
            } else {
                a.selected - half_page(a)
            } && b.detail_scroll == 0
            &&& a.mode == Mode::Detail ==> b.selected == a.selected && b.detail_scroll
                == if a.detail_scroll < half_page(a) {
                0
            } else {
                a.detail_scroll - half_page(a)
            }
        }),
        is_quiet(a, a.pressed(Key::Char('d'), false)),
        is_quiet(a, a.pressed(Key::Char('u'), false)),
{
    lemma_list_fits(a);
}

/// Over an empty list no key moves anything or opens a detail.
pub proof fn an_empty_list_stays_put(a: AppView, key: Key, ctrl: bool)
    requires
        a.wf(),
        a.mode == Mode::Normal,
        a.filtered.len() == 0,
        key == Key::Char('j') || key == Key::Char('k') || key == Key::Char('g') || key == Key::Char(
            'G',
        ) || key == Key::Down || key == Key::Up || key == Key::Enter || key == Key::Char('l')
            || key == Key::Right || (ctrl && (key == Key::Char('d') || key == Key::Char('u'))),
    ensures
        is_quiet(a, a.pressed(key, ctrl)),
{
    assert(a.pressed(key, ctrl) =~= AppView { message: Seq::empty(), ..a });
}

// ---- opening and closing -------------------------------------------------

/// Enter, `l` and Right open the detail of the selected group.
pub proof fn the_detail_opens(a: AppView, key: Key, ctrl: bool)
    requires
        a.wf(),
        is_browsing(a),
        a.filtered.len() > 0,
        key == Key::Enter || key == Key::Char('l') || key == Key::Right,
    ensures
        is_quiet(AppView { mode: Mode::Detail, ..a }, a.pressed(key, ctrl)),
{
}

/// Escape, `h` and Left close the detail and leave the list as it is; over the list they
/// clear the search, so that every group is listed.
pub proof fn backing_out(a: AppView, key: Key, ctrl: bool)
    requires
        a.wf(),
        is_browsing(a),
        key == Key::Esc || key == Key::Char('h') || key == Key::Left,
    ensures
        a.mode == Mode::Detail ==> is_quiet(
            AppView { mode: Mode::Normal, ..a },
            a.pressed(key, ctrl),
        ),
        a.mode == Mode::Normal ==> {
            let b = a.pressed(key, ctrl);
            &&& b.mode == Mode::Normal
            &&& b.search.len() == 0
            &&& b.filtered == Seq::new(a.denials.len(), |i: int| i as usize)
            &&& b.denials == a.denials
            &&& b.sort == a.sort
            &&& b.selected == a.selected
            &&& !a.should_quit ==> !b.should_quit
        },
{
    if a.mode == Mode::Normal {
        let b = a.pressed(key, ctrl);
        crate::state::keys_keep_the_state_sound(a, key, ctrl);
        if a.search.len() == 0 {
            assert(a.search =~= Seq::<char>::empty());
        }
        crate::state::empty_search_shows_everything(b);
        crate::state::list_shows_what_passes(a);
        if a.filtered.len() > 0 {
            lemma_ascending(a.filtered, a.denials.len() as int, a.selected as int);
        }
    }
}

/// The list is no longer than the groups.
proof fn lemma_list_fits(a: AppView)
    requires
        a.wf(),
    ensures
        a.filtered.len() <= a.denials.len() <= usize::MAX,
{
    crate::state::list_shows_what_passes(a);
    if a.filtered.len() > 0 {
        lemma_ascending(a.filtered, a.denials.len() as int, a.filtered.len() - 1);
    }
}

/// Ascending places below `n` are at least their own index.
proof fn lemma_ascending(s: Seq<usize>, n: int, k: int)
    requires
        0 <= k < s.len(),
        forall|i: int| 0 <= i < s.len() ==> (#[trigger] s[i]) < n,
        forall|i: int, j: int| 0 <= i < j < s.len() ==> (#[trigger] s[i]) < (#[trigger] s[j]),
    ensures
        k <= s[k] < n,
    decreases k,
{
    if k > 0 {
        lemma_ascending(s, n, k - 1);
    }
}

/// `q` closes the detail, and over the list quits.
pub proof fn closing_or_quitting(a: AppView, ctrl: bool)
    requires
        is_browsing(a),
    ensures
        a.mode == Mode::Detail ==> is_quiet(
            AppView { mode: Mode::Normal, ..a },
            a.pressed(Key::Char('q'), ctrl),
        ),
        a.mode == Mode::Normal ==> is_quiet(
            AppView { should_quit: true, ..a },
            a.pressed(Key::Char('q'), ctrl),
        ),
{
}

/// `?` opens the help from the list and from the detail; over the help only Escape, `q`
/// and `?` do anything, and they close it without quitting.
pub proof fn help_opens_and_closes_again(a: AppView, key: Key, ctrl: bool)
    ensures
        is_browsing(a) ==> is_quiet(
            AppView { mode: Mode::Help, ..a },
            a.pressed(Key::Char('?'), ctrl),
        ),
        a.mode == Mode::Help ==> is_quiet(
            AppView {
                mode: if key == Key::Esc || key == Key::Char('q') || key == Key::Char('?') {
                    Mode::Normal
                } else {
                    Mode::Help
                },
                ..a
            },
            a.pressed(key, ctrl),
        ),
{
}

/// Keys without a meaning do nothing over the list and the detail.
pub proof fn other_keys_do_nothing(a: AppView, c: char, ctrl: bool)
    requires
        is_browsing(a),
        c != 'q' && c != 'j' && c != 'k' && c != 'g' && c != 'G' && c != 's' && c != 'r' && c != '/'
            && c != ':' && c != '?' && c != 'l' && c != 'h',
        !ctrl || (c != 'd' && c != 'u'),
    ensures
        is_quiet(a, a.pressed(Key::Char(c), ctrl)),
        is_quiet(a, a.pressed(Key::Backspace, ctrl)),
        is_quiet(a, a.pressed(Key::Other, ctrl)),
        a.action(Key::Char(c)) == Action::Stay,
{
}

// ---- sorting and reloading -----------------------------------------------

/// `s` goes from count to recency, to source type, and to count again, and lists the
/// same groups in the new order.
pub proof fn the_next_order_is_taken(a: AppView, ctrl: bool)
    requires
        a.wf(),
        is_browsing(a),
    ensures
        ({
            let b = a.pressed(Key::Char('s'), ctrl);
            &&& a.sort == SortKey::Count ==> b.sort == SortKey::LastSeen
            &&& a.sort == SortKey::LastSeen ==> b.sort == SortKey::SourceType
            &&& a.sort == SortKey::SourceType ==> b.sort == SortKey::Count
            &&& crate::ranking::is_listed_in_order(b.denials, b.sort)
            &&& b.denials.to_multiset() == a.denials.to_multiset()
            &&& b.search == a.search
            &&& b.filtered == crate::state::hits(b.denials, a.search)
            &&& b.mode == a.mode
            &&& b.command == a.command
            &&& b.message.len() == 0
            &&& b.detail_scroll == 0
            &&& b.should_quit == a.should_quit
            &&& b.wf()
        }),
{
    crate::state::keys_keep_the_state_sound(a, Key::Char('s'), ctrl);
    crate::state::keys_change_nothing_read(a, Key::Char('s'), ctrl);
    crate::ranking::sorted_lists_are_in_order(a.denials, a.sort.successor());
}

/// `r` over the list or the detail asks for a reload, and changes nothing before it
/// comes. No other key asks for one but Enter behind a command.
pub proof fn reloading_is_asked_for(a: AppView, key: Key, ctrl: bool)
    ensures
        is_browsing(a) ==> a.action(Key::Char('r')) == Action::Reload && is_quiet(
            a,
            a.pressed(Key::Char('r'), ctrl),
        ),
        is_browsing(a) && key != Key::Char('r') ==> a.action(key) == Action::Stay,
        a.mode == Mode::Search || a.mode == Mode::Help ==> a.action(key) == Action::Stay,
        a.mode == Mode::Command && key != Key::Enter ==> a.action(key) == Action::Stay,
{
}

// ---- searching -----------------------------------------------------------

/// `/` begins a new search, for which every group is listed at first.
pub proof fn a_search_begins(a: AppView, ctrl: bool)
    requires
        a.wf(),
        is_browsing(a),
    ensures
        ({
            let b = a.pressed(Key::Char('/'), ctrl);
            &&& b.mode == Mode::Search
            &&& b.search.len() == 0
            &&& b.filtered == Seq::new(a.denials.len(), |i: int| i as usize)
            &&& b.denials == a.denials
            &&& b.sort == a.sort
            &&& b.should_quit == a.should_quit
        }),
{
    crate::state::keys_keep_the_state_sound(a, Key::Char('/'), ctrl);
    crate::state::empty_search_shows_everything(a.pressed(Key::Char('/'), ctrl));
}

/// While a search is typed, a character goes to its end and Backspace takes one off;
/// the list follows at once, and the selection stays unless the list has become too
/// short for it. Other keys leave the search as it is.
pub proof fn the_search_is_typed(a: AppView, c: char, ctrl: bool)
    requires
        a.wf(),
        a.mode == Mode::Search,
    ensures
        ({
            let b = a.pressed(Key::Char(c), ctrl);
            &&& b.search == a.search + seq![c]
            &&& follows_search(a, b)
        }),
        ({
            let b = a.pressed(Key::Backspace, ctrl);
            &&& b.search == if a.search.len() == 0 {
                a.search
            } else {
                a.search.take(a.search.len() - 1)
            }
            &&& follows_search(a, b)
        }),
        is_quiet(a, a.pressed(Key::Up, ctrl)),
        is_quiet(a, a.pressed(Key::Down, ctrl)),
        is_quiet(a, a.pressed(Key::Left, ctrl)),
        is_quiet(a, a.pressed(Key::Right, ctrl)),
        is_quiet(a, a.pressed(Key::Other, ctrl)),
{
    crate::state::keys_keep_the_state_sound(a, Key::Char(c), ctrl);
    crate::state::keys_keep_the_state_sound(a, Key::Backspace, ctrl);
    assert(a.search.push(c) =~= a.search + seq![c]);
    if a.search.len() > 0 {
        assert(a.search.drop_last() =~= a.search.take(a.search.len() - 1));
    }
}

/// The list has followed the search: what is listed is what holds it, and the selection
/// is where it was or, where that is too far, on the last group.
pub open spec fn follows_search(a: AppView, b: AppView) -> bool {
    &&& b.wf()
    &&& b.mode == Mode::Search
    &&& b.denials == a.denials
    &&& b.sort == a.sort
    &&& b.command == a.command
    &&& b.should_quit == a.should_quit
    &&& b.detail_scroll == 0
    &&& b.filtered.len() > 0 ==> b.selected == least(a.selected as int, b.filtered.len() - 1)
    &&& b.filtered.len() == 0 ==> b.selected == 0
}

/// Enter leaves the search and keeps its list; Escape leaves it and lists everything.
pub proof fn a_search_ends(a: AppView, ctrl: bool)
    requires
        a.wf(),
        a.mode == Mode::Search,
    ensures
        is_quiet(AppView { mode: Mode::Normal, ..a }, a.pressed(Key::Enter, ctrl)),
        ({
            let b = a.pressed(Key::Esc, ctrl);
            &&& b.mode == Mode::Normal
            &&& b.search.len() == 0
            &&& b.filtered == Seq::new(a.denials.len(), |i: int| i as usize)
            &&& b.denials == a.denials
            &&& b.sort == a.sort
            &&& b.should_quit == a.should_quit
        }),
{
    crate::state::escape_clears_the_filter(a, ctrl);
}

// ---- commands ------------------------------------------------------------

/// `:` begins a command line with a colon in it; characters go to its end, Backspace
/// takes one off, Escape leaves it.
pub proof fn a_command_is_typed(a: AppView, c: char, ctrl: bool)
    ensures
        is_browsing(a) ==> is_quiet(
            AppView { mode: Mode::Command, command: seq![':'], ..a },
            a.pressed(Key::Char(':'), ctrl),
        ),
        a.mode == Mode::Command ==> {
            &&& is_quiet(
                AppView { command: a.command + seq![c], ..a },
                a.pressed(Key::Char(c), ctrl),
            )
            &&& is_quiet(
                AppView {
                    command: if a.command.len() == 0 {
                        a.command
                    } else {
                        a.command.take(a.command.len() - 1)
                    },
                    ..a
                },
                a.pressed(Key::Backspace, ctrl),
            )
            &&& is_quiet(
                AppView { command: Seq::empty(), mode: Mode::Normal, ..a },
                a.pressed(Key::Esc, ctrl),
            )
            &&& is_quiet(a, a.pressed(Key::Up, ctrl))
            &&& is_quiet(a, a.pressed(Key::Down, ctrl))
            &&& is_quiet(a, a.pressed(Key::Other, ctrl))
        },
{
    assert(a.command.push(c) =~= a.command + seq![c]);
    if a.command.len() > 0 {
        assert(a.command.drop_last() =~= a.command.take(a.command.len() - 1));
    }
}

/// The order after another.
pub open spec fn next_order(sort: SortKey) -> SortKey {
    if sort == SortKey::Count {
        SortKey::LastSeen
    } else if sort == SortKey::LastSeen {
        SortKey::SourceType
    } else {
        SortKey::Count
    }
}

/// The command line is this word, with any colons in front of it and any white space
/// around both. The word does not begin with a colon, nor, where there is none, with
/// white space, and does not end with white space.
pub open spec fn spells_command(
    line: Seq<char>,
    front: Seq<char>,
    colons: Seq<char>,
    w: Seq<char>,
    back: Seq<char>,
) -> bool {
    &&& line == front + (colons + w) + back
    &&& crate::laws::is_blank(front)
    &&& crate::laws::is_blank(back)
    &&& forall|i: int| 0 <= i < colons.len() ==> (#[trigger] colons[i]) == ':'
    &&& w.len() > 0 ==> w[0] != ':' && !crate::text::is_space(w.last())
    &&& w.len() > 0 && colons.len() == 0 ==> !crate::text::is_space(w[0])
}

proof fn lemma_command_word(
    a: AppView,
    front: Seq<char>,
    colons: Seq<char>,
    w: Seq<char>,
    back: Seq<char>,
)
    requires
        spells_command(a.command, front, colons, w, back),
    ensures
        a.command_word() == w,
{
    let s = colons + w;
    if w.len() > 0 {
        assert(s.last() == w.last());
    } else if colons.len() > 0 {
        assert(s.last() == colons.last());
    }
    if colons.len() > 0 {
        assert(s[0] == colons[0]);
    } else if w.len() > 0 {
        assert(s[0] == w[0]);
    }
    crate::text_laws::trimming_undoes_padding(front, s, back);
    crate::text_laws::colons_in_front_are_taken_off(colons, w);
}

/// Enter carries out the command behind the colon and goes back to the list: it quits,
/// opens the help, takes the next order or asks for a reload; of any other word it says
/// that it is unknown.
pub proof fn commands_do_what_they_say(
    a: AppView,
    front: Seq<char>,
    colons: Seq<char>,
    w: Seq<char>,
    back: Seq<char>,
    ctrl: bool,
)
    requires
        a.wf(),
        a.mode == Mode::Command,
        w.len() > 0,
        spells_command(a.command, front, colons, w, back),
    ensures
        ({
            let b = a.pressed(Key::Enter, ctrl);
            let done = AppView { command: Seq::empty(), mode: Mode::Normal, ..a };
            let asks = a.action(Key::Enter) == Action::Reload;
            if w == "q"@ || w == "quit"@ {
                is_quiet(AppView { should_quit: true, ..done }, b) && !asks
            } else if w == "h"@ || w == "help"@ {
                is_quiet(AppView { mode: Mode::Help, ..done }, b) && !asks
            } else if w == "sort"@ {
                &&& b.mode == Mode::Normal
                &&& b.command.len() == 0
                &&& b.sort == next_order(a.sort)
                &&& crate::ranking::is_listed_in_order(b.denials, b.sort)
                &&& b.denials.to_multiset() == a.denials.to_multiset()
                &&& b.search == a.search
                &&& b.filtered == crate::state::hits(b.denials, a.search)
                &&& b.message.len() == 0
                &&& b.should_quit == a.should_quit
                &&& !asks
            } else if w == "r"@ || w == "reload"@ {
                is_quiet(done, b) && asks
            } else {
                b == AppView { message: "unknown command: :"@ + w, ..done } && !asks
            }
        }),
{
    lemma_command_word(a, front, colons, w, back);
    lemma_words_differ();
    crate::state::keys_change_nothing_read(a, Key::Enter, ctrl);
    crate::ranking::sorted_lists_are_in_order(a.denials, a.sort.successor());
    lemma_command_word(
        AppView { message: Seq::empty(), mode: Mode::Normal, ..a },
        front,
        colons,
        w,
        back,
    );
}

proof fn lemma_words_differ()
    ensures
        "r"@ != "q"@ && "r"@ != "quit"@ && "r"@ != "h"@ && "r"@ != "help"@ && "r"@ != "sort"@,
        "reload"@ != "q"@ && "reload"@ != "quit"@ && "reload"@ != "h"@ && "reload"@ != "help"@
            && "reload"@ != "sort"@,
{
    reveal_strlit("r");
    reveal_strlit("reload");
    reveal_strlit("q");
    reveal_strlit("quit");
    reveal_strlit("h");
    reveal_strlit("help");
    reveal_strlit("sort");
    assert("r"@[0] == 'r' && "reload"@[0] == 'r');
    assert("q"@[0] == 'q' && "quit"@[0] == 'q');
    assert("h"@[0] == 'h' && "help"@[0] == 'h');
    assert("sort"@[0] == 's');
}

/// A command line of colons and white space around them, or of nothing at all, does
/// nothing but go back to the list.
pub proof fn an_empty_command_does_nothing(
    a: AppView,
    front: Seq<char>,
    colons: Seq<char>,
    back: Seq<char>,
    ctrl: bool,
)
    requires
        a.mode == Mode::Command,
        spells_command(a.command, front, colons, Seq::empty(), back),
    ensures
        is_quiet(
            AppView { command: Seq::empty(), mode: Mode::Normal, ..a },
            a.pressed(Key::Enter, ctrl),
        ),
        a.action(Key::Enter) == Action::Stay,
{
    reveal_strlit("r");
    reveal_strlit("reload");
    reveal_strlit("q");
    reveal_strlit("quit");
    reveal_strlit("h");
    reveal_strlit("help");
    reveal_strlit("sort");
    let none = Seq::<char>::empty();
    lemma_command_word(a, front, colons, none, back);
    lemma_command_word(
        AppView { message: none, mode: Mode::Normal, ..a },
        front,
        colons,
        none,
        back,
    );
}

// ---- the badge -----------------------------------------------------------

/// The badge shows the mode of the system; only in the demo, and only where the mode is
/// disabled or not known, it shows enforcing, and says that this is made up.
pub proof fn the_badge_shows_the_mode(a: AppView)
    ensures
        ({
            let (status, synthetic) = crate::state::shown_status(a);
            &&& !a.demo ==> status == a.status && !synthetic
            &&& a.status == EnforceStatus::Enforcing || a.status == EnforceStatus::Permissive
                ==> status == a.status && !synthetic
            &&& a.demo && (a.status == EnforceStatus::Disabled || a.status
                == EnforceStatus::Unknown) ==> status == EnforceStatus::Enforcing && synthetic
        }),
{
}

} // verus!
