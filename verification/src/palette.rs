//! The command palette: its items, its search, the order of its theme list and
//! its state.
use vstd::prelude::*;
use crate::order::{insert_sorted, lemma_irreflexive, lex_lt, strictly_sorted};
use crate::text::{
    chars_equal, has_prefix, keep_non_empty, lower_chars, lower_seq, non_empty, split, split_by,
    starts_with, str_chars, string_of, views, Sep,
};

verus! {

/// The theme entry that leaves the choice of colours to the shell.
pub const SHELL_DECIDE_THEME_ID: &'static str = "shell-decide";

/// The commands that the palette and the key bindings run.
#[derive(Clone, Copy, Debug, PartialEq, Eq, Structural)]
pub enum CommandAction {
    OpenConfig,
    NewTab,
    CloseTab,
    ZoomIn,
    ZoomOut,
    ZoomReset,
    ImportColors,
    Quit,
    SwitchTheme,
    AppInfo,
    NativeSdkExample,
    RestartApp,
    RenameTab,
    MoveTabLeft,
    MoveTabRight,
    SwitchTabLeft,
    SwitchTabRight,
    CheckForUpdates,
    ToggleCommandPalette,
    Copy,
    Paste,
    OpenSearch,
    CloseSearch,
    SearchNext,
    SearchPrevious,
    ToggleSearchCaseSensitive,
    ToggleSearchRegex,
    OpenSettings,
    MinimizeWindow,
    InstallCli,
}

#[derive(Clone, Copy, Debug, PartialEq, Eq, Structural)]
pub enum CommandPaletteMode {
    Commands,
    Themes,
}

#[derive(Clone, Debug, PartialEq, Eq)]
pub enum CommandPaletteItemKind {
    Command(CommandAction),
    Theme(String),
}

#[derive(Clone, Debug, PartialEq, Eq)]
pub struct CommandPaletteItem {
    pub title: String,
    pub keywords: String,
    pub kind: CommandPaletteItemKind,
}

pub enum ItemKindView {
    Command(CommandAction),
    Theme(Seq<char>),
}

pub struct ItemView {
    pub title: Seq<char>,
    pub keywords: Seq<char>,
    pub kind: ItemKindView,
}

impl View for CommandPaletteItemKind {
    type V = ItemKindView;

    open spec fn view(&self) -> ItemKindView {
        match self {
            CommandPaletteItemKind::Command(a) => ItemKindView::Command(*a),
            CommandPaletteItemKind::Theme(t) => ItemKindView::Theme(t@),
        }
    }
}

impl View for CommandPaletteItem {
    type V = ItemView;

    open spec fn view(&self) -> ItemView {
        ItemView { title: self.title@, keywords: self.keywords@, kind: self.kind@ }
    }
}

pub open spec fn item_views(s: Seq<CommandPaletteItem>) -> Seq<ItemView> {
    s.map_values(|i: CommandPaletteItem| i@)
}

pub open spec fn string_views(s: Seq<String>) -> Seq<Seq<char>> {
    s.map_values(|x: String| x@)
}

/// `-` read as a space, as the theme keywords spell a theme id.
pub open spec fn dashes_to_spaces(s: Seq<char>) -> Seq<char> {
    s.map_values(|c: char| if c == '-' { ' ' } else { c })
}

/// The title of a theme entry: the id, after a check mark when it is the active theme.
pub open spec fn theme_title(id: Seq<char>, is_active: bool) -> Seq<char> {
    if is_active {
        seq!['\u{2713}', ' '] + id
    } else {
        id
    }
}

/// The search words of a theme entry.
pub open spec fn theme_keywords(id: Seq<char>) -> Seq<char> {
    "theme palette colors "@ + dashes_to_spaces(id)
}

pub open spec fn shell_decide_id() -> Seq<char> {
    SHELL_DECIDE_THEME_ID@
}

/// The query's terms: its whitespace-separated words, lower-cased.
pub open spec fn query_terms(q: Seq<char>) -> Seq<Seq<char>> {
    non_empty(split_by(lower_seq(q), Sep::Whitespace))
}

/// The words of a text: its runs of ASCII letters and digits, lower-cased
/// (the pieces between them, empty ones included).
pub open spec fn text_words(text: Seq<char>) -> Seq<Seq<char>> {
    split_by(lower_seq(text), Sep::NonAlnum)
}

pub open spec fn some_word_starts_with(words: Seq<Seq<char>>, term: Seq<char>) -> bool {
    exists|j: int| 0 <= j < words.len() && words[j].len() > 0 && has_prefix(#[trigger] words[j], term)
}

/// Every term begins some word of the text.
pub open spec fn matches_terms(text: Seq<char>, terms: Seq<Seq<char>>) -> bool {
    forall|i: int| 0 <= i < terms.len() ==> some_word_starts_with(text_words(text), #[trigger] terms[i])
}

pub open spec fn item_matches(it: ItemView, terms: Seq<Seq<char>>, titles_only: bool) -> bool {
    matches_terms(it.title, terms) || (!titles_only && matches_terms(it.keywords, terms))
}

/// The items that match, in their order.
pub open spec fn keep_matching(items: Seq<ItemView>, terms: Seq<Seq<char>>, titles_only: bool) -> Seq<ItemView>
    decreases items.len(),
{
    if items.len() == 0 {
        items
    } else {
        let rest = keep_matching(items.drop_last(), terms, titles_only);
        if item_matches(items.last(), terms, titles_only) {
            rest.push(items.last())
        } else {
            rest
        }
    }
}

pub open spec fn some_title_matches(items: Seq<ItemView>, terms: Seq<Seq<char>>) -> bool {
    exists|k: int| 0 <= k < items.len() && matches_terms(#[trigger] items[k].title, terms)
}

/// The palette's search: all items for a blank query; else the items whose
/// title matches, or, when no title does, those whose title or keywords match.
pub open spec fn filter_items(items: Seq<ItemView>, q: Seq<char>) -> Seq<ItemView> {
    let terms = query_terms(q);
    if terms.len() == 0 {
        items
    } else {
        keep_matching(items, terms, some_title_matches(items, terms))
    }
}

/// The palette's theme list: the current theme first, then every other theme
/// of `ids`, the shell's choice and the current theme once each, in
/// lexicographic order.
pub open spec fn palette_theme_order(r: Seq<Seq<char>>, ids: Seq<Seq<char>>, current: Seq<char>) -> bool {
    &&& r.len() > 0
    &&& r[0] == current
    &&& strictly_sorted(r.drop_first())
    &&& !r.drop_first().contains(current)
    &&& r.to_set() == ids.to_set().insert(shell_decide_id()).insert(current)
}

/// What the escape key does in each mode.
#[derive(Clone, Copy, Debug, PartialEq, Eq, Structural)]
pub enum CommandPaletteEscapeAction {
    ClosePalette,
    BackToCommands,
}

/// The text of an inline text input.
#[derive(Clone, Debug)]
pub struct InlineInputState {
    text: String,
}

impl View for InlineInputState {
    type V = Seq<char>;

    closed spec fn view(&self) -> Seq<char> {
        self.text@
    }
}

impl InlineInputState {
    pub fn new(text: String) -> (r: Self)
        ensures
            r@ == text@,
    {
        InlineInputState { text }
    }

    pub fn text(&self) -> (r: &str)
        ensures
            r@ == self@,
    {
        self.text.as_str()
    }

    pub fn set_text(&mut self, text: String)
        ensures
            final(self)@ == text@,
    {
        self.text = text;
    }

    pub fn clear(&mut self)
        ensures
            final(self)@ == Seq::<char>::empty(),
    {
        self.text = String::new();
    }
}

/// The palette's state, apart from the scroll offsets, which the view keeps.
pub struct CommandPaletteState {
    pub open: bool,
    pub mode: CommandPaletteMode,
    pub input: InlineInputState,
    pub filtered_items: Vec<CommandPaletteItem>,
    pub selected: usize,
    pub scroll_animating: bool,
    pub show_keybinds: bool,
}

impl CommandPaletteItem {
    /// An entry that runs `action`.
    pub fn command(title: &str, keywords: &str, action: CommandAction) -> (r: Self)
        ensures
            r@ == (ItemView { title: title@, keywords: keywords@, kind: ItemKindView::Command(action) }),
    {
        let t = str_chars(title);
        let k = str_chars(keywords);
        CommandPaletteItem {
            title: string_of(t.as_slice()),
            keywords: string_of(k.as_slice()),
            kind: CommandPaletteItemKind::Command(action),
        }
    }

    /// An entry that selects the theme `theme_id`.
    pub fn theme(theme_id: String, is_active: bool) -> (r: Self)
        ensures
            r@ == (ItemView {
                title: theme_title(theme_id@, is_active),
                keywords: theme_keywords(theme_id@),
                kind: ItemKindView::Theme(theme_id@),
            }),
    {
        let id = str_chars(theme_id.as_str());
        let mut title: Vec<char> = Vec::new();
        if is_active {
            title.push('\u{2713}');
            title.push(' ');
        }
        let mut keywords = str_chars("theme palette colors ");
        let ghost t0 = title@;
        let ghost k0 = keywords@;
        let mut i: usize = 0;
        while i < id.len()
            invariant
                i <= id.len(),
                title@ == t0 + id@.take(i as int),
                keywords@ == k0 + dashes_to_spaces(id@.take(i as int)),
            decreases id.len() - i,
        {
            let c = id[i];
            title.push(c);
            keywords.push(if c == '-' { ' ' } else { c });
            i = i + 1;
            assert(title@ =~= t0 + id@.take(i as int));
            assert(keywords@ =~= k0 + dashes_to_spaces(id@.take(i as int)));
        }
        assert(id@.take(id.len() as int) =~= id@);
        assert(title@ =~= theme_title(theme_id@, is_active));
        CommandPaletteItem {
            title: string_of(title.as_slice()),
            keywords: string_of(keywords.as_slice()),
            kind: CommandPaletteItemKind::Theme(theme_id),
        }
    }

    /// A copy of the entry's kind.
    pub fn kind_copy(&self) -> (r: CommandPaletteItemKind)
        ensures
            r@ == self.kind@,
    {
        match &self.kind {
            CommandPaletteItemKind::Command(a) => CommandPaletteItemKind::Command(*a),
            CommandPaletteItemKind::Theme(t) => CommandPaletteItemKind::Theme(t.clone()),
        }
    }
}

impl CommandPaletteState {
    /// A closed palette in command mode with an empty query and no items.
    pub fn new(show_keybinds: bool) -> (r: Self)
        ensures
            !r.open,
            r.mode == CommandPaletteMode::Commands,
            r.input@ == Seq::<char>::empty(),
            r.filtered_items@.len() == 0,
            r.selected == 0,
            !r.scroll_animating,
            r.show_keybinds == show_keybinds,
    {
        CommandPaletteState {
            open: false,
            mode: CommandPaletteMode::Commands,
            input: InlineInputState::new(String::new()),
            filtered_items: Vec::new(),
            selected: 0,
            scroll_animating: false,
            show_keybinds,
        }
    }

    /// Stops the scroll animation.
    pub fn reset_scroll_animation_state(&mut self)
        ensures
            !final(self).scroll_animating,
            final(self).open == old(self).open,
            final(self).mode == old(self).mode,
            final(self).input@ == old(self).input@,
            final(self).filtered_items@ == old(self).filtered_items@,
            final(self).selected == old(self).selected,
            final(self).show_keybinds == old(self).show_keybinds,
    {
        self.scroll_animating = false;
    }

    /// Clears the query, the items, the selection and the scroll animation;
    /// whether the palette is open, its mode and the key-binding setting stay.
    pub fn reset(&mut self)
        ensures
            final(self).input@ == Seq::<char>::empty(),
            final(self).filtered_items@.len() == 0,
            final(self).selected == 0,
            !final(self).scroll_animating,
            final(self).open == old(self).open,
            final(self).mode == old(self).mode,
            final(self).show_keybinds == old(self).show_keybinds,
    {
        self.input.clear();
        self.filtered_items.clear();
        self.selected = 0;
        self.reset_scroll_animation_state();
    }

    /// Moves the selection onto the last item when it is past it, and to 0 when
    /// there are no items.
    pub fn clamp_selection(&mut self)
        ensures
            final(self).selected == (if old(self).filtered_items@.len() == 0 {
                0
            } else if old(self).selected >= old(self).filtered_items@.len() {
                (old(self).filtered_items@.len() - 1) as usize
            } else {
                old(self).selected
            }),
            final(self).open == old(self).open,
            final(self).mode == old(self).mode,
            final(self).input@ == old(self).input@,
            final(self).filtered_items@ == old(self).filtered_items@,
            final(self).scroll_animating == old(self).scroll_animating,
            final(self).show_keybinds == old(self).show_keybinds,
    {
        if self.filtered_items.is_empty() {
            self.selected = 0;
        } else if self.selected >= self.filtered_items.len() {
            self.selected = self.filtered_items.len() - 1;
        }
    }
}

proof fn lemma_keep_members(items: Seq<ItemView>, terms: Seq<Seq<char>>, titles_only: bool)
    ensures
        forall|k: int| 0 <= k < keep_matching(items, terms, titles_only).len() ==> {
            &&& item_matches(#[trigger] keep_matching(items, terms, titles_only)[k], terms, titles_only)
            &&& items.contains(keep_matching(items, terms, titles_only)[k])
        },
    decreases items.len(),
{
    if items.len() > 0 {
        let d = items.drop_last();
        lemma_keep_members(d, terms, titles_only);
        let r = keep_matching(items, terms, titles_only);
        assert forall|k: int| 0 <= k < r.len() implies {
            &&& item_matches(#[trigger] r[k], terms, titles_only)
            &&& items.contains(r[k])
        } by {
            let rd = keep_matching(d, terms, titles_only);
            if k < rd.len() {
                assert(r[k] == rd[k]);
                let m = choose|m: int| 0 <= m < d.len() && d[m] == rd[k];
                assert(items[m] == rd[k]);
            } else {
                assert(r[k] == items.last());
                assert(items[items.len() - 1] == items.last());
            }
        }
    }
}

proof fn lemma_keep_all(items: Seq<ItemView>, terms: Seq<Seq<char>>, titles_only: bool)
    requires
        forall|k: int| 0 <= k < items.len() ==> item_matches(#[trigger] items[k], terms, titles_only),
    ensures
        keep_matching(items, terms, titles_only) == items,
    decreases items.len(),
{
    if items.len() > 0 {
        let d = items.drop_last();
        assert forall|k: int| 0 <= k < d.len() implies item_matches(#[trigger] d[k], terms, titles_only) by {
            assert(d[k] == items[k]);
        }
        lemma_keep_all(d, terms, titles_only);
        assert(item_matches(items[items.len() - 1], terms, titles_only));
        assert(d.push(items.last()) =~= items);
    }
}

proof fn lemma_keep_keeps(items: Seq<ItemView>, terms: Seq<Seq<char>>, titles_only: bool, k: int)
    requires
        0 <= k < items.len(),
        item_matches(items[k], terms, titles_only),
    ensures
        keep_matching(items, terms, titles_only).contains(items[k]),
    decreases items.len(),
{
    let r = keep_matching(items, terms, titles_only);
    if k == items.len() - 1 {
        assert(r[r.len() - 1] == items[k]);
    } else {
        let d = items.drop_last();
        assert(d[k] == items[k]);
        lemma_keep_keeps(d, terms, titles_only, k);
        let rd = keep_matching(d, terms, titles_only);
        let m = choose|m: int| 0 <= m < rd.len() && rd[m] == items[k];
        assert(r[m] == items[k]);
    }
}

/// What the search keeps, it keeps from the items, and each kept item matches
/// the query (by its title alone whenever some title matches).
pub proof fn filter_keeps_matching_items(items: Seq<ItemView>, q: Seq<char>)
    ensures
        forall|k: int| 0 <= k < filter_items(items, q).len() ==> items.contains(
            #[trigger] filter_items(items, q)[k],
        ),
        query_terms(q).len() > 0 ==> forall|k: int| 0 <= k < filter_items(items, q).len()
            ==> item_matches(
            #[trigger] filter_items(items, q)[k],
            query_terms(q),
            some_title_matches(items, query_terms(q)),
        ),
{
    let terms = query_terms(q);
    if terms.len() == 0 {
        assert forall|k: int| 0 <= k < items.len() implies items.contains(#[trigger] items[k]) by {}
    } else {
        lemma_keep_members(items, terms, some_title_matches(items, terms));
    }
}

/// Searching the result of a search again with the same query changes nothing.
pub proof fn filter_is_idempotent(items: Seq<ItemView>, q: Seq<char>)
    ensures
        filter_items(filter_items(items, q), q) == filter_items(items, q),
{
    let terms = query_terms(q);
    if terms.len() > 0 {
        let t = some_title_matches(items, terms);
        let r = keep_matching(items, terms, t);
        lemma_keep_members(items, terms, t);
        if t {
            let k = choose|k: int| 0 <= k < items.len() && matches_terms(#[trigger] items[k].title, terms);
            lemma_keep_keeps(items, terms, true, k);
            let m = choose|m: int| 0 <= m < r.len() && r[m] == items[k];
            assert(matches_terms(r[m].title, terms));
            assert(some_title_matches(r, terms));
        } else {
            assert(!some_title_matches(r, terms)) by {
                if some_title_matches(r, terms) {
                    let m = choose|m: int| 0 <= m < r.len() && matches_terms(#[trigger] r[m].title, terms);
                    let k = choose|k: int| 0 <= k < items.len() && items[k] == r[m];
                    assert(matches_terms(items[k].title, terms));
                }
            }
        }
        lemma_keep_all(r, terms, t);
    }
}

/// The theme order leaves one list only: two lists ordered from the same ids
/// and current theme are equal.
pub proof fn theme_order_is_unique(r1: Seq<Seq<char>>, r2: Seq<Seq<char>>, ids: Seq<Seq<char>>, current: Seq<char>)
    requires
        palette_theme_order(r1, ids, current),
        palette_theme_order(r2, ids, current),
    ensures
        r1 == r2,
{
    let t1 = r1.drop_first();
    let t2 = r2.drop_first();
    assert forall|e: Seq<char>| t1.to_set().contains(e) implies t2.to_set().contains(e) by {
        let k = choose|k: int| 0 <= k < t1.len() && t1[k] == e;
        assert(r1[k + 1] == e);
        assert(r1.to_set().contains(e));
        let m = choose|m: int| 0 <= m < r2.len() && r2[m] == e;
        if m == 0 {
            assert(t1.contains(current));
        }
        assert(t2[m - 1] == e);
    }
    assert forall|e: Seq<char>| t2.to_set().contains(e) implies t1.to_set().contains(e) by {
        let k = choose|k: int| 0 <= k < t2.len() && t2[k] == e;
        assert(r2[k + 1] == e);
        assert(r2.to_set().contains(e));
        let m = choose|m: int| 0 <= m < r1.len() && r1[m] == e;
        if m == 0 {
            assert(t2.contains(current));
        }
        assert(t1[m - 1] == e);
    }
    assert(t1.to_set() =~= t2.to_set());
    crate::order::lemma_sorted_unique(t1, t2);
    assert(r1 =~= r2) by {
        assert forall|k: int| 0 <= k < r1.len() implies r1[k] == r2[k] by {
            if k > 0 {
                assert(r1[k] == t1[k - 1]);
                assert(r2[k] == t2[k - 1]);
            }
        }
    }
}

/// Ordering the palette's theme list again, for the same current theme, gives
/// the same list.
pub proof fn theme_order_is_idempotent(r1: Seq<Seq<char>>, r2: Seq<Seq<char>>, ids: Seq<Seq<char>>, current: Seq<char>)
    requires
        palette_theme_order(r1, ids, current),
        palette_theme_order(r2, r1, current),
    ensures
        r2 == r1,
{
    let full = ids.to_set().insert(shell_decide_id()).insert(current);
    assert(r1.to_set().insert(shell_decide_id()).insert(current) =~= full);
    theme_order_is_unique(r1, r2, ids, current);
}

/// In the palette's theme list a theme id comes before every other id that
/// extends it ("nord" before "nord-light").
pub proof fn theme_list_puts_prefixes_first(
    r: Seq<Seq<char>>,
    ids: Seq<Seq<char>>,
    current: Seq<char>,
    i: int,
    j: int,
    x: Seq<char>,
)
    requires
        palette_theme_order(r, ids, current),
        1 <= i < r.len(),
        1 <= j < r.len(),
        x.len() > 0,
        r[j] == r[i] + x,
    ensures
        i < j,
{
    let t = r.drop_first();
    crate::order::proper_prefix_sorts_first(r[i], x);
    assert(t[i - 1] == r[i]);
    assert(t[j - 1] == r[j]);
    if j < i {
        assert(lex_lt(t[j - 1], t[i - 1]));
    }
    assert(i != j) by {
        assert(r[j].len() == r[i].len() + x.len());
    }
}

/// A word of a text: a maximal run of ASCII letters and digits, lower-cased.
pub open spec fn is_word_of(text: Seq<char>, w: Seq<char>) -> bool {
    let pieces = split_by(lower_seq(text), Sep::NonAlnum);
    exists|j: int| 0 <= j < pieces.len() && pieces[j] == w && w.len() > 0
}

/// The term begins some word of the text.
pub open spec fn term_begins_word(text: Seq<char>, t: Seq<char>) -> bool {
    exists|w: Seq<char>| #[trigger] is_word_of(text, w) && has_prefix(w, t)
}

/// Each term begins some word of the text.
pub open spec fn terms_begin_words(text: Seq<char>, terms: Seq<Seq<char>>) -> bool {
    forall|i: int| 0 <= i < terms.len() ==> term_begins_word(text, #[trigger] terms[i])
}

/// A text matches the terms exactly when each term begins some word of the
/// text; a term found inside a word ("ab" in "tab") does not match.
pub proof fn text_matches_iff_terms_begin_words(text: Seq<char>, terms: Seq<Seq<char>>)
    ensures
        matches_terms(text, terms) <==> terms_begin_words(text, terms),
{
    let pieces = split_by(lower_seq(text), Sep::NonAlnum);
    if matches_terms(text, terms) {
        assert forall|i: int| 0 <= i < terms.len() implies term_begins_word(text, #[trigger] terms[i]) by {
            assert(some_word_starts_with(text_words(text), terms[i]));
            let j = choose|j: int| 0 <= j < pieces.len() && pieces[j].len() > 0 && has_prefix(#[trigger] pieces[j], terms[i]);
            assert(is_word_of(text, pieces[j]));
        }
        assert(terms_begin_words(text, terms));
    }
    if terms_begin_words(text, terms) {
        assert forall|i: int| 0 <= i < terms.len() implies some_word_starts_with(text_words(text), #[trigger] terms[i]) by {
            let w = choose|w: Seq<char>| #[trigger] is_word_of(text, w) && has_prefix(w, terms[i]);
            let j = choose|j: int| 0 <= j < pieces.len() && pieces[j] == w && w.len() > 0;
            assert(has_prefix(pieces[j], terms[i]));
        }
        assert(matches_terms(text, terms));
    }
}

/// Every item the search keeps has, for each term of the query, a word of its
/// title or of its keywords that begins with the term.
pub proof fn search_results_have_words_for_each_term(items: Seq<ItemView>, q: Seq<char>, k: int, i: int)
    requires
        0 <= k < filter_items(items, q).len(),
        0 <= i < query_terms(q).len(),
    ensures
        ({
            let it = filter_items(items, q)[k];
            let t = query_terms(q)[i];
            term_begins_word(it.title, t) || term_begins_word(it.keywords, t)
        }),
{
    filter_keeps_matching_items(items, q);
    let it = filter_items(items, q)[k];
    let terms = query_terms(q);
    text_matches_iff_terms_begin_words(it.title, terms);
    text_matches_iff_terms_begin_words(it.keywords, terms);
}

/// Converts strings to character vectors.
fn char_vectors(s: &Vec<String>) -> (r: Vec<Vec<char>>)
    ensures
        views(r@) == string_views(s@),
{
    let mut r: Vec<Vec<char>> = Vec::new();
    let mut i: usize = 0;
    while i < s.len()
        invariant
            i <= s.len(),
            views(r@) == string_views(s@.take(i as int)),
        decreases s.len() - i,
    {
        let v = str_chars(s[i].as_str());
        let ghost before = views(r@);
        r.push(v);
        i = i + 1;
        assert(views(r@) =~= before.push(s@[i - 1]@));
        assert(string_views(s@.take(i as int)) =~= string_views(s@.take(i - 1)).push(s@[i - 1]@));
    }
    assert(s@.take(s.len() as int) =~= s@);
    r
}

/// The theme ids to list: the current theme first, then the others, the
/// shell's choice among them, sorted and without repeats.
pub fn ordered_theme_ids_for_palette(theme_ids: Vec<String>, current_theme: &str) -> (r: Vec<String>)
    ensures
        palette_theme_order(string_views(r@), string_views(theme_ids@), current_theme@),
{
    let ids = char_vectors(&theme_ids);
    let ghost idv = views(ids@);
    let mut sorted: Vec<Vec<char>> = Vec::new();
    let mut i: usize = 0;
    assert(views(sorted@).to_set() =~= idv.take(0).to_set());
    while i < ids.len()
        invariant
            i <= ids.len(),
            idv == views(ids@),
            strictly_sorted(views(sorted@)),
            views(sorted@).to_set() == idv.take(i as int).to_set(),
        decreases ids.len() - i,
    {
        let x = crate::text::slice_of(ids[i].as_slice(), 0, ids[i].len());
        assert(x@ =~= idv[i as int]);
        insert_sorted(&mut sorted, x);
        i = i + 1;
        assert(idv.take(i as int).to_set() == idv.take(i as int - 1).to_set().insert(idv[i as int - 1])) by {
            assert(idv.take(i as int) =~= idv.take(i as int - 1).push(idv[i as int - 1]));
            idv.take(i as int - 1).lemma_push_to_set_commute(idv[i as int - 1]);
        }
    }
    assert(idv.take(ids.len() as int) =~= idv);
    insert_sorted(&mut sorted, str_chars(SHELL_DECIDE_THEME_ID));
    let current = str_chars(current_theme);
    insert_sorted(&mut sorted, str_chars(current_theme));
    let ghost s = views(sorted@);
    let ghost full = string_views(theme_ids@).to_set().insert(shell_decide_id()).insert(current_theme@);
    assert(s.to_set() == full);
    assert(s.to_set().contains(current@));
    let mut pos: usize = 0;
    while pos < sorted.len() && !chars_equal(sorted[pos].as_slice(), current.as_slice())
        invariant
            pos <= sorted.len(),
            s == views(sorted@),
            forall|k: int| 0 <= k < pos ==> s[k] != current@,
        decreases sorted.len() - pos,
    {
        assert(sorted@[pos as int]@ == s[pos as int]);
        pos = pos + 1;
    }
    if pos >= sorted.len() {
        assert(false) by {
            let k = choose|k: int| 0 <= k < s.len() && s[k] == current@;
        }
    }
    assert(sorted@[pos as int]@ == s[pos as int]);
    let _ = sorted.remove(pos);
    let ghost tail = views(sorted@);
    assert(tail =~= s.remove(pos as int));
    assert(strictly_sorted(tail)) by {
        assert forall|a: int, b: int| 0 <= a < b < tail.len() implies lex_lt(#[trigger] tail[a], #[trigger] tail[b]) by {
            let a2 = if a < pos { a } else { a + 1 };
            let b2 = if b < pos { b } else { b + 1 };
            assert(tail[a] == s[a2]);
            assert(tail[b] == s[b2]);
        }
    }
    assert(!tail.contains(current@)) by {
        if tail.contains(current@) {
            let k = choose|k: int| 0 <= k < tail.len() && tail[k] == current@;
            let k2 = if k < pos { k } else { k + 1 };
            assert(s[k2] == s[pos as int]);
            lemma_irreflexive(current@);
        }
    }
    let mut r: Vec<String> = Vec::new();
    r.push(string_of(current.as_slice()));
    let mut j: usize = 0;
    while j < sorted.len()
        invariant
            j <= sorted.len(),
            tail == views(sorted@),
            string_views(r@) == seq![current@] + tail.take(j as int),
        decreases sorted.len() - j,
    {
        assert(sorted@[j as int]@ == tail[j as int]);
        let ghost before = string_views(r@);
        r.push(string_of(sorted[j].as_slice()));
        j = j + 1;
        assert(string_views(r@) =~= before.push(tail[j - 1]));
        assert(tail.take(j as int) =~= tail.take(j - 1).push(tail[j - 1]));
        assert(string_views(r@) =~= seq![current@] + tail.take(j as int));
    }
    let ghost rv = string_views(r@);
    assert(tail.take(sorted.len() as int) =~= tail);
    assert(rv.drop_first() =~= tail);
    assert forall|e: Seq<char>| rv.to_set().contains(e) <==> full.contains(e) by {
        if rv.to_set().contains(e) {
            let k = choose|k: int| 0 <= k < rv.len() && rv[k] == e;
            if k > 0 {
                let k2 = if k - 1 < pos { k - 1 } else { k };
                assert(s[k2] == e);
            }
        }
        if full.contains(e) {
            assert(s.to_set().contains(e));
            let k = choose|k: int| 0 <= k < s.len() && s[k] == e;
            if k < pos {
                assert(rv[k + 1] == e);
            } else if k > pos {
                assert(rv[k] == e);
            } else {
                assert(rv[0] == e);
            }
        }
    }
    assert(rv.to_set() =~= full);
    r
}

/// The query's terms: its whitespace-separated words, lower-cased.
fn query_term_chars(query: &str) -> (r: Vec<Vec<char>>)
    ensures
        views(r@) == query_terms(query@),
{
    let q = str_chars(query);
    let l = lower_chars(q.as_slice());
    let parts = split(l.as_slice(), &Sep::Whitespace);
    keep_non_empty(parts)
}

/// Whether every term begins some word of `text`.
fn text_matches(text: &[char], terms: &Vec<Vec<char>>) -> (r: bool)
    ensures
        r == matches_terms(text@, views(terms@)),
{
    let l = lower_chars(text);
    let words = split(l.as_slice(), &Sep::NonAlnum);
    let ghost w = views(words@);
    let ghost tv = views(terms@);
    assert(w == text_words(text@));
    let mut i: usize = 0;
    while i < terms.len()
        invariant
            i <= terms.len(),
            w == views(words@),
            w == text_words(text@),
            tv == views(terms@),
            forall|k: int| 0 <= k < i ==> some_word_starts_with(w, #[trigger] tv[k]),
        decreases terms.len() - i,
    {
        assert(terms@[i as int]@ == tv[i as int]);
        let mut j: usize = 0;
        let mut found = false;
        while j < words.len() && !found
            invariant
                j <= words.len(),
                w == views(words@),
                tv == views(terms@),
                i < terms.len(),
                found ==> some_word_starts_with(w, tv[i as int]),
                !found ==> forall|m: int| 0 <= m < j ==> !(w[m].len() > 0 && has_prefix(#[trigger] w[m], tv[i as int])),
            decreases words.len() - j + (if found { 0int } else { 1int }),
        {
            assert(words@[j as int]@ == w[j as int]);
            if words[j].len() > 0 && starts_with(words[j].as_slice(), terms[i].as_slice()) {
                found = true;
            } else {
                j = j + 1;
            }
        }
        if !found {
            assert(!some_word_starts_with(w, tv[i as int]));
            return false;
        }
        i = i + 1;
    }
    true
}

/// Whether every query term begins some word of `text`.
pub fn command_palette_text_matches_terms(text: &str, query_terms: &[String]) -> (r: bool)
    ensures
        r == matches_terms(text@, string_views(query_terms@)),
{
    let t = str_chars(text);
    let mut terms: Vec<Vec<char>> = Vec::new();
    let mut i: usize = 0;
    while i < query_terms.len()
        invariant
            i <= query_terms.len(),
            views(terms@) == string_views(query_terms@.take(i as int)),
        decreases query_terms.len() - i,
    {
        let ghost before = views(terms@);
        terms.push(str_chars(query_terms[i].as_str()));
        i = i + 1;
        assert(views(terms@) =~= before.push(query_terms@[i - 1]@));
        assert(string_views(query_terms@.take(i as int)) =~= string_views(query_terms@.take(i - 1)).push(query_terms@[i - 1]@));
        assert(views(terms@) =~= string_views(query_terms@.take(i as int)));
    }
    assert(query_terms@.take(query_terms.len() as int) =~= query_terms@);
    text_matches(t.as_slice(), &terms)
}

/// The items that match the query: all of them for a blank query; else those
/// whose title matches, or, when no title matches, those whose title or
/// keywords match. The order is kept.
pub fn filter_command_palette_items_by_query(items: Vec<CommandPaletteItem>, query: &str) -> (r: Vec<CommandPaletteItem>)
    ensures
        item_views(r@) == filter_items(item_views(items@), query@),
{
    let terms = query_term_chars(query);
    if terms.len() == 0 {
        return items;
    }
    let ghost all = item_views(items@);
    let ghost tv = views(terms@);
    let mut has_title_matches = false;
    let mut k: usize = 0;
    while k < items.len() && !has_title_matches
        invariant
            k <= items.len(),
            all == item_views(items@),
            tv == views(terms@),
            has_title_matches ==> some_title_matches(all, tv),
            !has_title_matches ==> forall|m: int| 0 <= m < k ==> !matches_terms(#[trigger] all[m].title, tv),
        decreases items.len() - k + (if has_title_matches { 0int } else { 1int }),
    {
        assert(items@[k as int]@ == all[k as int]);
        let t = str_chars(items[k].title.as_str());
        if text_matches(t.as_slice(), &terms) {
            assert(matches_terms(all[k as int].title, tv));
            has_title_matches = true;
        } else {
            k = k + 1;
        }
    }
    let ghost titles_only = some_title_matches(all, tv);
    assert(has_title_matches == titles_only);
    let n = items.len();
    let mut rest = items;
    let mut out: Vec<CommandPaletteItem> = Vec::new();
    let mut i: usize = 0;
    while 0 < rest.len()
        invariant
            n == all.len(),
            i + rest.len() == n,
            item_views(rest@) == all.skip(i as int),
            item_views(out@) == keep_matching(all.take(i as int), tv, titles_only),
            tv == views(terms@),
            has_title_matches == titles_only,
        decreases rest.len(),
    {
        let ghost old_rest = rest@;
        let item = rest.remove(0);
        proof {
            assert(item_views(old_rest)[0] == all.skip(i as int)[0]);
            let t = all.take(i as int + 1);
            assert(t.drop_last() =~= all.take(i as int));
            assert(t.last() == item@);
        }
        let title = str_chars(item.title.as_str());
        let keep = if text_matches(title.as_slice(), &terms) {
            true
        } else if has_title_matches {
            false
        } else {
            let kw = str_chars(item.keywords.as_str());
            text_matches(kw.as_slice(), &terms)
        };
        let ghost out_before = item_views(out@);
        if keep {
            out.push(item);
            assert(item_views(out@) =~= out_before.push(all[i as int]));
        }
        i = i + 1;
        assert forall|m: int| 0 <= m < rest@.len() implies item_views(rest@)[m] == all.skip(i as int)[m] by {
            assert(rest@[m] == old_rest[m + 1]);
            assert(item_views(old_rest)[m + 1] == all.skip(i as int - 1)[m + 1]);
        }
        assert(item_views(rest@) =~= all.skip(i as int));
    }
    assert(all.take(n as int) =~= all);
    out
}

} // verus!
