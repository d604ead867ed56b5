use vstd::prelude::*;
use std::collections::HashMap;
use crate::packet::NodeId;
use crate::files::{parse_unsigned, parsed_up_to};

verus! {

broadcast use vstd::std_specs::hash::group_hash_axioms;

/// The decimal digits of `n`, most significant first, without leading zeros
/// ("0" for zero).
pub open spec fn decimal_chars(n: nat) -> Seq<char>
    decreases n,
{
    if n < 10 {
        seq![digit_char(n)]
    } else {
        decimal_chars(n / 10).push(digit_char(n % 10))
    }
}

pub open spec fn digit_char(d: nat) -> char {
    if d == 0 {
        '0'
    } else if d == 1 {
        '1'
    } else if d == 2 {
        '2'
    } else if d == 3 {
        '3'
    } else if d == 4 {
        '4'
    } else if d == 5 {
        '5'
    } else if d == 6 {
        '6'
    } else if d == 7 {
        '7'
    } else if d == 8 {
        '8'
    } else {
        '9'
    }
}

/// The one-character text of a decimal digit.
fn digit_text(d: usize) -> (s: &'static str)
    requires
        d < 10,
    ensures
        s@ == seq![digit_char(d as nat)],
{
    if d == 0 {
        proof {
            reveal_strlit("0");
        }
        assert("0"@ =~= seq!['0']);
        "0"
    } else if d == 1 {
        proof {
            reveal_strlit("1");
        }
        assert("1"@ =~= seq!['1']);
        "1"
    } else if d == 2 {
        proof {
            reveal_strlit("2");
        }
        assert("2"@ =~= seq!['2']);
        "2"
    } else if d == 3 {
        proof {
            reveal_strlit("3");
        }
        assert("3"@ =~= seq!['3']);
        "3"
    } else if d == 4 {
        proof {
            reveal_strlit("4");
        }
        assert("4"@ =~= seq!['4']);
        "4"
    } else if d == 5 {
        proof {
            reveal_strlit("5");
        }
        assert("5"@ =~= seq!['5']);
        "5"
    } else if d == 6 {
        proof {
            reveal_strlit("6");
        }
        assert("6"@ =~= seq!['6']);
        "6"
    } else if d == 7 {
        proof {
            reveal_strlit("7");
        }
        assert("7"@ =~= seq!['7']);
        "7"
    } else if d == 8 {
        proof {
            reveal_strlit("8");
        }
        assert("8"@ =~= seq!['8']);
        "8"
    } else {
        proof {
            reveal_strlit("9");
        }
        assert("9"@ =~= seq!['9']);
        "9"
    }
}

/// The decimal digits of `n`, as `ToString::to_string` writes a `usize`.
pub(crate) fn decimal_text(n: usize) -> (s: String)
    ensures
        s@ == decimal_chars(n as nat),
    decreases n,
{
    if n < 10 {
        String::from_str(digit_text(n))
    } else {
        let mut s = decimal_text(n / 10);
        s.append(digit_text(n % 10));
        s
    }
}

/// What `usize::from_str` accepts (see `parsed_up_to`).
pub open spec fn parsed_index(s: Seq<char>) -> Option<usize> {
    match parsed_up_to(s, usize::MAX as int) {
        Some(v) => Some(v as usize),
        None => None,
    }
}

/// Lines joined with a newline between each two.
pub open spec fn join_lines(lines: Seq<Seq<char>>) -> Seq<char>
    decreases lines.len(),
{
    if lines.len() == 0 {
        Seq::empty()
    } else if lines.len() == 1 {
        lines[0]
    } else {
        join_lines(lines.drop_last()) + seq!['\n'] + lines.last()
    }
}

pub open spec fn lines_view(lines: Seq<String>) -> Seq<Seq<char>> {
    lines.map_values(|l: String| l@)
}

/// `a * b`, or `usize::MAX` when that overflows.
pub fn saturating_product(a: usize, b: usize) -> (r: usize)
    ensures
        r == if a * b > usize::MAX { usize::MAX as int } else { a * b },
{
    if a == 0 || b == 0 {
        assert(a * b == 0) by (nonlinear_arith)
            requires a == 0 || b == 0;
        return 0;
    }
    if a > usize::MAX / b {
        assert(a * b > usize::MAX) by (nonlinear_arith)
            requires a > usize::MAX / b, b > 0;
        usize::MAX
    } else {
        assert(a * b <= usize::MAX) by (nonlinear_arith)
            requires a <= usize::MAX / b, b > 0;
        a * b
    }
}

/// Lines `start` up to `end` of a text, joined with newlines.
pub fn join_range(lines: &Vec<String>, start: usize, end: usize) -> (s: String)
    requires
        start <= end <= lines@.len(),
    ensures
        s@ == join_lines(lines_view(lines@.subrange(start as int, end as int))),
{
    let mut s = String::new();
    let mut i: usize = start;
    while i < end
        invariant
            start <= i <= end <= lines@.len(),
            s@ == join_lines(lines_view(lines@.subrange(start as int, i as int))),
        decreases end - i,
    {
        proof {
            let prev = lines_view(lines@.subrange(start as int, i as int));
            let next = lines_view(lines@.subrange(start as int, i as int + 1));
            assert(next.drop_last() =~= prev);
            assert(next.last() == lines@[i as int]@);
        }
        if i > start {
            s.append("\n");
            proof {
                reveal_strlit("\n");
            }
        }
        s.append(lines[i].as_str());
        i = i + 1;
    }
    s
}

/// A text file shown page by page in a window: its lines, and the page each
/// window is on.
pub struct TextFileCache {
    pub file_lines: HashMap<NodeId, Vec<String>>,
    pub current_page: HashMap<NodeId, usize>,
    pub total_lines: HashMap<NodeId, usize>,
    pub lines_per_page: usize,
    pub page_input: HashMap<NodeId, String>,
}

/// The number of pages of a text of `total` lines: at least one.
pub open spec fn page_count(total: nat, per_page: nat) -> nat {
    if total == 0 || per_page == 0 {
        1
    } else {
        ((if total + per_page - 1 > usize::MAX { usize::MAX as int } else { total + per_page - 1 }) / (per_page as int)) as nat
    }
}

/// The page after turning forward from `page` in a text of `total` pages:
/// the next one, or the same on the last page.
pub open spec fn next_page_of(page: nat, total: nat) -> nat {
    if page + 1 < total {
        page + 1
    } else {
        page
    }
}

/// The page after turning back from `page`: the previous one, or the first.
pub open spec fn prev_page_of(page: nat) -> nat {
    if page > 0 {
        (page - 1) as nat
    } else {
        0
    }
}

/// The pages of a text a window shows.
pub open spec fn window_pages(c: &TextFileCache, window_id: NodeId) -> nat {
    page_count(
        if c.total_lines@.contains_key(window_id) { c.total_lines@[window_id] as nat } else { 0 },
        c.lines_per_page as nat,
    )
}

/// Turning forward stays within the text, and turning back from a page one
/// has turned forward to returns to the page before.
pub proof fn lemma_page_turns(page: nat, total: nat)
    requires
        page < total,
    ensures
        next_page_of(page, total) < total,
        page + 1 < total ==> prev_page_of(next_page_of(page, total)) == page,
        page > 0 ==> next_page_of(prev_page_of(page), total) == page,
{
}

impl TextFileCache {
    /// An empty cache showing 50 lines per page.
    pub fn new() -> (res: TextFileCache)
        ensures
            res.lines_per_page == 50,
            res.file_lines@ == Map::<NodeId, Vec<String>>::empty(),
            res.current_page@ == Map::<NodeId, usize>::empty(),
            res.total_lines@ == Map::<NodeId, usize>::empty(),
            res.page_input@ == Map::<NodeId, String>::empty(),
    {
        TextFileCache {
            file_lines: HashMap::new(),
            current_page: HashMap::new(),
            total_lines: HashMap::new(),
            lines_per_page: 50,
            page_input: HashMap::new(),
        }
    }

    /// Shows a text (given as its lines) in a window, from the first page.
    pub fn load_lines(&mut self, window_id: NodeId, lines: Vec<String>)
        ensures
            final(self).file_lines@ == old(self).file_lines@.insert(window_id, lines),
            final(self).total_lines@ == old(self).total_lines@.insert(window_id, lines@.len() as usize),
            final(self).current_page@ == old(self).current_page@.insert(window_id, 0),
            final(self).page_input@.dom() == old(self).page_input@.dom().insert(window_id),
            final(self).page_input@[window_id]@ == seq!['1'],
            forall|w: NodeId| w != window_id && #[trigger] old(self).page_input@.contains_key(w) ==> final(self).page_input@[w] == old(self).page_input@[w],
            final(self).lines_per_page == old(self).lines_per_page,
    {
        let total = lines.len();
        self.file_lines.insert(window_id, lines);
        self.total_lines.insert(window_id, total);
        self.current_page.insert(window_id, 0);
        let one = String::from_str("1");
        proof {
            reveal_strlit("1");
        }
        self.page_input.insert(window_id, one);
    }

    /// The lines of the window's current page (page 0 when none is set),
    /// joined with newlines; empty when the page lies past the end or pages
    /// hold no lines; nothing when the window shows no text.
    pub fn get_page_content(&self, window_id: NodeId) -> (res: Option<String>)
        requires
            self.current_page@.contains_key(window_id) ==> self.current_page@[window_id] < usize::MAX,
        ensures
            !self.file_lines@.contains_key(window_id) ==> res is None,
            self.file_lines@.contains_key(window_id) ==> res is Some && {
                let lines = self.file_lines@[window_id]@;
                let page = if self.current_page@.contains_key(window_id) { self.current_page@[window_id] as int } else { 0 };
                let per = self.lines_per_page as int;
                let start = if page * per > usize::MAX { usize::MAX as int } else { page * per };
                let stop = if (page + 1) * per > usize::MAX { usize::MAX as int } else { (page + 1) * per };
                let end = if stop < lines.len() { stop } else { lines.len() as int };
                res->Some_0@ == if per == 0 || start >= lines.len() {
                    Seq::<char>::empty()
                } else {
                    join_lines(lines_view(lines.subrange(start, end)))
                }
            },
    {
        let lines = match self.file_lines.get(&window_id) {
            Some(l) => l,
            None => {
                return None;
            },
        };
        let page = match self.current_page.get(&window_id) {
            Some(p) => *p,
            None => 0,
        };
        if self.lines_per_page == 0 {
            return Some(String::new());
        }
        let start = saturating_product(page, self.lines_per_page);
        let stop = saturating_product(page + 1, self.lines_per_page);
        let end = if stop < lines.len() { stop } else { lines.len() };
        if start >= lines.len() {
            return Some(String::new());
        }
        assert(start <= end) by (nonlinear_arith)
            requires
                start == (if page * self.lines_per_page > usize::MAX { usize::MAX as int } else { page * self.lines_per_page }),
                stop == (if (page + 1) * self.lines_per_page > usize::MAX { usize::MAX as int } else { (page + 1) * self.lines_per_page }),
                end == (if stop < lines@.len() { stop as int } else { lines@.len() as int }),
                start < lines@.len(),
                self.lines_per_page > 0;
        Some(join_range(lines, start, end))
    }

    /// The number of pages of the window's text (see `page_count`; a window
    /// without a text has one page).
    pub fn get_total_pages(&self, window_id: NodeId) -> (n: usize)
        ensures
            n == page_count(
                if self.total_lines@.contains_key(window_id) { self.total_lines@[window_id] as nat } else { 0 },
                self.lines_per_page as nat,
            ),
    {
        let total = match self.total_lines.get(&window_id) {
            Some(t) => *t,
            None => 0,
        };
        if total == 0 || self.lines_per_page == 0 {
            return 1;
        }
        let sum = total.saturating_add(self.lines_per_page - 1);
        sum / self.lines_per_page
    }

    /// Turns the window to the next page, unless it is on the last one; the
    /// page box then shows the (1-based) page number.
    pub fn next_page(&mut self, window_id: NodeId)
        requires
            old(self).current_page@.contains_key(window_id) ==> old(self).current_page@[window_id] < usize::MAX,
        ensures
            final(self).file_lines@ == old(self).file_lines@,
            final(self).total_lines@ == old(self).total_lines@,
            final(self).lines_per_page == old(self).lines_per_page,
            old(self).current_page@.contains_key(window_id) ==> final(self).current_page@[window_id]
                == next_page_of(old(self).current_page@[window_id] as nat, window_pages(old(self), window_id)),
            ({
                let total = page_count(
                    if old(self).total_lines@.contains_key(window_id) { old(self).total_lines@[window_id] as nat } else { 0 },
                    old(self).lines_per_page as nat,
                );
                let moves = old(self).current_page@.contains_key(window_id) && old(self).current_page@[window_id] + 1 < total;
                &&& final(self).current_page@ == if moves {
                    old(self).current_page@.insert(window_id, (old(self).current_page@[window_id] + 1) as usize)
                } else {
                    old(self).current_page@
                }
                &&& moves ==> final(self).page_input@.contains_key(window_id)
                    && final(self).page_input@[window_id]@ == decimal_chars((old(self).current_page@[window_id] + 2) as nat)
                &&& !moves ==> final(self).page_input@ == old(self).page_input@
                &&& final(self).page_input@.dom() == if moves { old(self).page_input@.dom().insert(window_id) } else { old(self).page_input@.dom() }
            }),
    {
        let total_pages = self.get_total_pages(window_id);
        match self.current_page.get(&window_id) {
            Some(p) => {
                let page = *p;
                if page + 1 < total_pages {
                    self.current_page.insert(window_id, page + 1);
                    let text = decimal_text(page + 2);
                    self.page_input.insert(window_id, text);
                }
            },
            None => {},
        }
    }

    /// Turns the window to the previous page (staying on the first); the page
    /// box then shows the (1-based) page number.
    pub fn prev_page(&mut self, window_id: NodeId)
        ensures
            final(self).file_lines@ == old(self).file_lines@,
            final(self).total_lines@ == old(self).total_lines@,
            final(self).lines_per_page == old(self).lines_per_page,
            old(self).current_page@.contains_key(window_id) ==> final(self).current_page@[window_id]
                == prev_page_of(old(self).current_page@[window_id] as nat),
            ({
                let present = old(self).current_page@.contains_key(window_id);
                let page = if present && old(self).current_page@[window_id] > 0 {
                    (old(self).current_page@[window_id] - 1) as usize
                } else {
                    0usize
                };
                &&& final(self).current_page@ == if present {
                    old(self).current_page@.insert(window_id, page)
                } else {
                    old(self).current_page@
                }
                &&& present ==> final(self).page_input@.contains_key(window_id)
                    && final(self).page_input@[window_id]@ == decimal_chars((page + 1) as nat)
                &&& !present ==> final(self).page_input@ == old(self).page_input@
                &&& final(self).page_input@.dom() == if present { old(self).page_input@.dom().insert(window_id) } else { old(self).page_input@.dom() }
            }),
    {
        match self.current_page.get(&window_id) {
            Some(p) => {
                let page = p.saturating_sub(1);
                self.current_page.insert(window_id, page);
                let text = decimal_text(page + 1);
                self.page_input.insert(window_id, text);
            },
            None => {},
        }
    }

    /// The "go to page" box: when the window's page box holds a page number
    /// from 1 up to the number of pages, the window turns to that page and the
    /// box shows the number again in plain digits; otherwise nothing changes.
    pub fn go_to_page(&mut self, window_id: NodeId)
        ensures
            final(self).file_lines@ == old(self).file_lines@,
            final(self).total_lines@ == old(self).total_lines@,
            final(self).lines_per_page == old(self).lines_per_page,
            ({
                let typed = if old(self).page_input@.contains_key(window_id) {
                    parsed_index(old(self).page_input@[window_id]@)
                } else {
                    None
                };
                let goes = typed is Some && 1 <= typed->0 && typed->0 <= window_pages(old(self), window_id);
                &&& final(self).current_page@ == if goes {
                    old(self).current_page@.insert(window_id, (typed->0 - 1) as usize)
                } else {
                    old(self).current_page@
                }
                &&& !goes ==> final(self).page_input@ == old(self).page_input@
                &&& goes ==> final(self).page_input@.contains_key(window_id)
                    && final(self).page_input@[window_id]@ == decimal_chars(typed->0 as nat)
                    && final(self).page_input@.remove(window_id) == old(self).page_input@.remove(window_id)
            }),
    {
        let total_pages = self.get_total_pages(window_id);
        let typed = match self.page_input.get(&window_id) {
            Some(input) => parse_unsigned(input.as_str(), usize::MAX),
            None => None,
        };
        match typed {
            Some(page_num) => {
                if page_num > 0 && page_num <= total_pages {
                    self.current_page.insert(window_id, page_num - 1);
                    let text = decimal_text(page_num);
                    self.page_input.insert(window_id, text);
                    proof {
                        assert(self.page_input@.remove(window_id) =~= old(self).page_input@.remove(window_id));
                    }
                }
            },
            None => {},
        }
    }

    /// Forgets the window's text.
    pub fn clear(&mut self, window_id: NodeId)
        ensures
            final(self).file_lines@ == old(self).file_lines@.remove(window_id),
            final(self).current_page@ == old(self).current_page@.remove(window_id),
            final(self).total_lines@ == old(self).total_lines@.remove(window_id),
            final(self).page_input@.dom() == old(self).page_input@.dom().remove(window_id),
            final(self).lines_per_page == old(self).lines_per_page,
    {
        self.file_lines.remove(&window_id);
        self.current_page.remove(&window_id);
        self.total_lines.remove(&window_id);
        self.page_input.remove(&window_id);
    }
}

} // verus!
