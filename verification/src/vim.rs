//! The vim-style input line: its modes, the pending count and operator keys, and what each
//! key does to the text and the cursor.
use vstd::prelude::*;
use crate::crypto::all_ascii;
use crate::text::{
    chars_of, digits_value, is_digit, is_space, parse_u64, space, string_of, texts,
};

verus! {

/// Normal mode moves and edits by commands; insert mode types text.
#[derive(Debug, Clone, Copy, PartialEq, Eq, Structural)]
pub enum Vim {
    Normal,
    Insert,
}

/// Whether `c` is an ASCII letter (the class `[a-zA-Z]`).
pub open spec fn is_letter(c: char) -> bool {
    ('a' <= c <= 'z') || ('A' <= c <= 'Z')
}

/// The characters runs are made of: ASCII letters, or else decimal digits.
pub open spec fn in_run(c: char, letters: bool) -> bool {
    if letters {
        is_letter(c)
    } else {
        is_digit(c)
    }
}

/// The maximal runs of run characters of `s`, in order.
pub open spec fn runs(s: Seq<char>, letters: bool) -> Seq<Seq<char>>
    decreases s.len(),
{
    if s.len() == 0 {
        Seq::empty()
    } else {
        let rest = runs(s.drop_first(), letters);
        if !in_run(s[0], letters) {
            rest
        } else if s.len() > 1 && in_run(s[1], letters) {
            rest.update(0, seq![s[0]] + rest[0])
        } else {
            seq![seq![s[0]]] + rest
        }
    }
}

/// The texts of `r` one after the other.
pub open spec fn concat(r: Seq<Seq<char>>) -> Seq<char>
    decreases r.len(),
{
    if r.len() == 0 {
        Seq::empty()
    } else {
        concat(r.drop_last()) + r.last()
    }
}

/// Every run is non-empty and made of run characters; a text that starts with a run character
/// has a first run that starts with it.
pub proof fn lemma_runs_shape(s: Seq<char>, letters: bool)
    ensures
        forall|i: int| 0 <= i < runs(s, letters).len() ==> #[trigger] runs(s, letters)[i].len() > 0,
        forall|i: int, j: int|
            0 <= i < runs(s, letters).len() && 0 <= j < runs(s, letters)[i].len() ==> in_run(
                #[trigger] runs(s, letters)[i][j],
                letters,
            ),
        s.len() > 0 && in_run(s[0], letters) ==> runs(s, letters).len() > 0 && runs(s, letters)[0][0]
            == s[0],
    decreases s.len(),
{
    if s.len() > 0 {
        let t = s.drop_first();
        lemma_runs_shape(t, letters);
        let rest = runs(t, letters);
        if in_run(s[0], letters) && s.len() > 1 && in_run(s[1], letters) {
            assert(t[0] == s[1]);
            let r = runs(s, letters);
            assert forall|i: int, j: int| 0 <= i < r.len() && 0 <= j < r[i].len() implies in_run(
                #[trigger] r[i][j],
                letters,
            ) by {
                if i == 0 {
                    if j > 0 {
                        assert(r[0][j] == rest[0][j - 1]);
                    }
                } else {
                    assert(r[i] == rest[i]);
                }
            }
        } else if in_run(s[0], letters) {
            let r = runs(s, letters);
            assert forall|i: int, j: int| 0 <= i < r.len() && 0 <= j < r[i].len() implies in_run(
                #[trigger] r[i][j],
                letters,
            ) by {
                if i > 0 {
                    assert(r[i] == rest[i - 1]);
                }
            }
            assert forall|i: int| 0 <= i < r.len() implies #[trigger] r[i].len() > 0 by {
                if i > 0 {
                    assert(r[i] == rest[i - 1]);
                }
            }
        }
    }
}

/// The matches of the pattern `\d+` in `text`, in order (`regex::Regex::find_iter`). On ASCII
/// text `\d` is exactly the digits `0`-`9`, and the leftmost-first greedy search takes each run
/// whole, so the matches are the maximal runs of digits. (`\d` also takes the other decimal
/// digits of Unicode; nothing is claimed of text that is not ASCII.)
#[verifier::external_body]
fn digit_matches(text: &str) -> (res: Vec<String>)
    requires
        all_ascii(text@),
    ensures
        texts(res@) == runs(text@, false),
{
    let re = regex::Regex::new(r"\d+").unwrap();
    let mut found: Vec<String> = Vec::new();
    for m in re.find_iter(text) {
        found.push(m.as_str().to_string());
    }
    found
}

/// The matches of the pattern `[a-zA-Z]+` in `text`, in order (`regex::Regex::find_iter`):
/// the maximal runs of ASCII letters.
#[verifier::external_body]
fn letter_matches(text: &str) -> (res: Vec<String>)
    ensures
        texts(res@) == runs(text@, true),
{
    let re = regex::Regex::new(r"[a-zA-Z]+").unwrap();
    let mut found: Vec<String> = Vec::new();
    for m in re.find_iter(text) {
        found.push(m.as_str().to_string());
    }
    found
}

/// What one run of digits adds to the count: its value, or nothing where it does not fit in a
/// `usize` (`parse::<usize>().unwrap_or(0)`).
pub open spec fn run_value(r: Seq<char>) -> nat {
    if digits_value(r) <= usize::MAX {
        digits_value(r)
    } else {
        0
    }
}

/// The values of the runs added up, saturating at `usize::MAX`.
pub open spec fn total_of(r: Seq<Seq<char>>) -> nat
    decreases r.len(),
{
    if r.len() == 0 {
        0
    } else {
        let t = total_of(r.drop_last()) + run_value(r.last());
        if t <= usize::MAX {
            t
        } else {
            usize::MAX as nat
        }
    }
}

/// The count that the pending keys give a command: every run of digits in them added up, at
/// most 999999 (0 where there is none).
pub open spec fn count_of(pending: Seq<char>) -> nat {
    let t = total_of(runs(pending, false));
    if t < 999999 {
        t
    } else {
        999999
    }
}

/// The operator that the pending keys give a command: their letters, in order.
pub open spec fn keys_of(pending: Seq<char>) -> Seq<char> {
    concat(runs(pending, true))
}

/// The count of the pending keys (see `count_of`).
fn count_from(pending: &Vec<char>) -> (n: usize)
    requires
        all_ascii(pending@),
    ensures
        n == count_of(pending@),
{
    let text = string_of(pending, 0, pending.len());
    assert(pending@.subrange(0, pending@.len() as int) =~= pending@);
    let found = digit_matches(text.as_str());
    let ghost r = runs(pending@, false);
    proof {
        lemma_runs_shape(pending@, false);
    }
    let mut total: usize = 0;
    let mut i: usize = 0;
    while i < found.len()
        invariant
            i <= found@.len(),
            texts(found@) == r,
            r == runs(pending@, false),
            forall|j: int| 0 <= j < r.len() ==> #[trigger] r[j].len() > 0,
            forall|j: int, m: int| 0 <= j < r.len() && 0 <= m < r[j].len() ==> in_run(
                #[trigger] r[j][m],
                false,
            ),
            total == total_of(r.take(i as int)),
        decreases found@.len() - i,
    {
        let piece = chars_of(found[i].as_str());
        let ghost d = r[i as int];
        assert(piece@ == d);
        assert(piece@.subrange(0, piece@.len() as int) =~= d);
        assert(d[0] != '+') by {
            assert(in_run(d[0], false));
        }
        assert(forall|m: int| 0 <= m < d.len() ==> is_digit(#[trigger] d[m])) by {
            assert forall|m: int| 0 <= m < d.len() implies is_digit(#[trigger] d[m]) by {
                assert(in_run(r[i as int][m], false));
            }
        }
        let parsed = parse_u64(&piece, 0, piece.len());
        let value: usize = match parsed {
            Some(x) => {
                if x <= usize::MAX as u64 {
                    x as usize
                } else {
                    0
                }
            },
            None => 0,
        };
        assert(value == run_value(d));
        assert(r.take(i + 1).drop_last() =~= r.take(i as int));
        total = total.saturating_add(value);
        i = i + 1;
    }
    assert(r.take(i as int) =~= r);
    if total < 999999 {
        total
    } else {
        999999
    }
}

/// The operator keys of the pending keys (see `keys_of`).
fn keys_from(pending: &Vec<char>) -> (k: Vec<char>)
    ensures
        k@ == keys_of(pending@),
{
    let text = string_of(pending, 0, pending.len());
    assert(pending@.subrange(0, pending@.len() as int) =~= pending@);
    let found = letter_matches(text.as_str());
    let ghost r = runs(pending@, true);
    let mut out: Vec<char> = Vec::new();
    let mut i: usize = 0;
    while i < found.len()
        invariant
            i <= found@.len(),
            texts(found@) == r,
            out@ == concat(r.take(i as int)),
        decreases found@.len() - i,
    {
        let piece = chars_of(found[i].as_str());
        assert(piece@ == r[i as int]);
        let ghost before = out@;
        let mut j: usize = 0;
        while j < piece.len()
            invariant
                j <= piece@.len(),
                out@ == before + piece@.take(j as int),
            decreases piece@.len() - j,
        {
            out.push(piece[j]);
            j = j + 1;
            assert(out@ =~= before + piece@.take(j as int));
        }
        assert(piece@.take(j as int) =~= piece@);
        assert(r.take(i + 1).drop_last() =~= r.take(i as int));
        i = i + 1;
    }
    assert(r.take(i as int) =~= r);
    out
}


/// A key as the input line sees it: quitting (control-q), the arrows, delete, enter (with alt,
/// or not), escape, backspace, a character, or anything else.
#[derive(Debug, Clone, Copy, PartialEq, Eq, Structural)]
pub enum Key {
    Quit,
    Left,
    Right,
    Up,
    Down,
    Delete,
    Enter,
    AltEnter,
    Esc,
    Backspace,
    Char(char),
    Other,
}

/// The word motions: to the next word (`w`), back to a word's start (`b`), to a word's end
/// (`e`), back to the previous word's end (`ge`).
#[derive(Debug, Clone, Copy, PartialEq, Eq, Structural)]
pub enum Motion {
    WordForward,
    WordBack,
    WordEnd,
    WordEndBack,
}

/// What a key asks of the program besides the edit: nothing, to quit, or to send a text a
/// number of times.
pub enum EditAction {
    Nothing,
    Quit,
    Send(String, usize),
}

/// What an action looks like to a contract.
#[verifier::ext_equal]
pub enum ActView {
    Nothing,
    Quit,
    Send(Seq<char>, int),
}

impl View for EditAction {
    type V = ActView;

    open spec fn view(&self) -> ActView {
        match self {
            EditAction::Nothing => ActView::Nothing,
            EditAction::Quit => ActView::Quit,
            EditAction::Send(t, n) => ActView::Send(t@, *n as int),
        }
    }
}

/// The input line: its mode, the pending count and operator keys, the text, the cursor (a
/// position in the text), and the column that up and down keep to.
pub struct Editor {
    pub mode: Vim,
    pub seq: Vec<char>,
    pub input: Vec<char>,
    pub cursor: usize,
    pub persis_y: usize,
}

/// What the input line looks like to a contract.
#[verifier::ext_equal]
pub struct EditorView {
    pub mode: Vim,
    pub seq: Seq<char>,
    pub input: Seq<char>,
    pub cursor: int,
    pub persis_y: int,
}

impl View for Editor {
    type V = EditorView;

    open spec fn view(&self) -> EditorView {
        EditorView {
            mode: self.mode,
            seq: self.seq@,
            input: self.input@,
            cursor: self.cursor as int,
            persis_y: self.persis_y as int,
        }
    }
}

/// The state made of these parts.
pub open spec fn ed(mode: Vim, seq: Seq<char>, input: Seq<char>, cursor: int, persis_y: int) -> EditorView {
    EditorView { mode, seq, input, cursor, persis_y }
}

/// One less, but not below zero (`saturating_sub(1)`).
pub open spec fn less_one(x: int) -> int {
    if x > 0 {
        x - 1
    } else {
        0
    }
}

/// `s` without `[a, b)` (`drain(a..b)`).
pub open spec fn cut(s: Seq<char>, a: int, b: int) -> Seq<char> {
    s.take(a) + s.skip(b)
}

/// From `p`, past the characters that are not white space.
pub open spec fn word_end(s: Seq<char>, p: int) -> int
    decreases s.len() - p,
{
    if 0 <= p < s.len() && !is_space(s[p]) {
        word_end(s, p + 1)
    } else {
        p
    }
}

/// From `p`, past the white space.
pub open spec fn space_end(s: Seq<char>, p: int) -> int
    decreases s.len() - p,
{
    if 0 <= p < s.len() && is_space(s[p]) {
        space_end(s, p + 1)
    } else {
        p
    }
}

/// From `p`, back while the character at the position is white space (not below zero).
pub open spec fn space_start(s: Seq<char>, p: int) -> int
    decreases p,
{
    if p > 0 && is_space(s[p]) {
        space_start(s, p - 1)
    } else {
        p
    }
}

/// From `p`, back while the character at the position is not white space (not below zero).
pub open spec fn word_start(s: Seq<char>, p: int) -> int
    decreases p,
{
    if p > 0 && !is_space(s[p]) {
        word_start(s, p - 1)
    } else {
        p
    }
}

/// Where one word motion from `p` lands.
pub open spec fn moved_once(s: Seq<char>, p: int, m: Motion) -> int {
    match m {
        Motion::WordForward => {
            let c = space_end(s, word_end(s, p));
            if c < less_one(s.len() as int) {
                c
            } else {
                less_one(s.len() as int)
            }
        },
        Motion::WordBack => {
            let c = word_start(s, space_start(s, less_one(p)));
            if c > 0 {
                c + 1
            } else {
                c
            }
        },
        Motion::WordEnd => {
            let c = if p < s.len() {
                p + 1
            } else {
                p
            };
            less_one(word_end(s, space_end(s, c)))
        },
        Motion::WordEndBack => less_one(word_end(s, word_start(s, space_start(s, less_one(p))))),
    }
}

/// Where `n` word motions from `p` land.
pub open spec fn moved(s: Seq<char>, p: int, m: Motion, n: nat) -> int
    decreases n,
{
    if n == 0 {
        p
    } else {
        moved(s, moved_once(s, p, m), m, (n - 1) as nat)
    }
}

/// The position of the last newline below `b`, or -1.
pub open spec fn last_newline_before(s: Seq<char>, b: int) -> int
    decreases b,
{
    if b <= 0 {
        -1
    } else if s[b - 1] == '\n' {
        b - 1
    } else {
        last_newline_before(s, b - 1)
    }
}

/// Where the line holding the position `b` starts.
pub open spec fn line_start(s: Seq<char>, b: int) -> int {
    last_newline_before(s, b) + 1
}

/// The position of the first newline at or after `b`, or the length.
pub open spec fn next_newline(s: Seq<char>, b: int) -> int
    decreases s.len() - b,
{
    if b >= s.len() {
        s.len() as int
    } else if 0 <= b && s[b] == '\n' {
        b
    } else if b < 0 {
        b
    } else {
        next_newline(s, b + 1)
    }
}

/// Where the first word starts for `^` and `I`: past the leading word and white space when the
/// text starts with a space (at most the last position), else the start.
pub open spec fn first_word(s: Seq<char>) -> int {
    if s.len() > 0 && s[0] == ' ' {
        let c = space_end(s, word_end(s, 0));
        if c < less_one(s.len() as int) {
            c
        } else {
            less_one(s.len() as int)
        }
    } else {
        0
    }
}

/// The smaller of two integers.
pub open spec fn lesser(a: int, b: int) -> int {
    if a < b {
        a
    } else {
        b
    }
}

/// The larger of two integers.
pub open spec fn greater(a: int, b: int) -> int {
    if a < b {
        b
    } else {
        a
    }
}

/// The up arrow: the column becomes at least the cursor's column; on a line below the first,
/// the cursor goes to the previous line, at that column or its end.
pub open spec fn moved_up(e: EditorView) -> EditorView {
    let s = e.input;
    let p = e.cursor;
    let b = lesser(p, s.len() as int);
    let ls = line_start(s, b);
    let col = b - ls;
    let py = greater(e.persis_y, col);
    if ls > 0 {
        let ps = line_start(s, ls - 1);
        let plen = ls - 1 - ps;
        let target = lesser(py, plen);
        ed(e.mode, e.seq, s, less_one_by(p, col + 1 + (plen - target)), py)
    } else {
        ed(e.mode, e.seq, s, p, py)
    }
}

/// `x - d`, but not below zero (`saturating_sub(d)`).
pub open spec fn less_one_by(x: int, d: int) -> int {
    if x > d {
        x - d
    } else {
        0
    }
}

/// The down arrow: the column becomes at least the cursor's column; on a line above the last,
/// the cursor goes to the next line, at that column or its end.
pub open spec fn moved_down(e: EditorView) -> EditorView {
    let s = e.input;
    let p = e.cursor;
    let b = lesser(p, s.len() as int);
    let ls = line_start(s, b);
    let col = b - ls;
    let py = greater(e.persis_y, col);
    let nl = next_newline(s, b);
    if nl < s.len() {
        let cur_len = nl - ls;
        let nn = next_newline(s, nl + 1);
        let target = lesser(py, nn - (nl + 1));
        ed(e.mode, e.seq, s, p + (cur_len - col) + 1 + target, py)
    } else {
        ed(e.mode, e.seq, s, p, py)
    }
}

/// Delete, `n` times: the character under the cursor goes; when the cursor is then past the end
/// it steps back one.
pub open spec fn delete_at(s: Seq<char>, c: int, n: nat) -> (Seq<char>, int)
    decreases n,
{
    if n == 0 || !(0 <= c < s.len()) {
        (s, c)
    } else {
        let t = s.remove(c);
        delete_at(
            t,
            if c == t.len() {
                less_one(c)
            } else {
                c
            },
            (n - 1) as nat,
        )
    }
}

/// The outcome of a motion to `to` under the pending operator: with `d` the text loses
/// `[a, b)` and the cursor goes to `at_d`; with `c` the same, the cursor at `at_c`, in insert
/// mode; with neither the cursor moves to `to`. The pending keys are cleared in every case.
pub open spec fn operated(
    e: EditorView,
    is_d: bool,
    is_c: bool,
    a: int,
    b: int,
    at_d: int,
    at_c: int,
    to: int,
) -> EditorView {
    if is_d {
        ed(e.mode, Seq::empty(), cut(e.input, a, b), at_d, e.persis_y)
    } else if is_c {
        ed(Vim::Insert, Seq::empty(), cut(e.input, a, b), at_c, e.persis_y)
    } else {
        ed(e.mode, Seq::empty(), e.input, to, e.persis_y)
    }
}

/// Whether the pending operator is `d` or `c`.
pub open spec fn dc_key(k: Seq<char>) -> bool {
    k == seq!['d'] || k == seq!['c']
}

/// Whether the pending keys turn `e` into `ge` (back to a word's end).
pub open spec fn backward_e(k: Seq<char>) -> bool {
    k == seq!['g'] || k == seq!['d', 'g'] || k == seq!['c', 'g']
}

/// A character typed in normal mode, with the count `n` and the operator `k` of the pending keys.
pub open spec fn normal_char(e: EditorView, c: char, n: int, k: Seq<char>) -> EditorView {
    let s = e.input;
    let p = e.cursor;
    let len = s.len() as int;
    let n1 = if n == 0 {
        1
    } else {
        n
    };
    let is_d = k == seq!['d'];
    let is_c = k == seq!['c'];
    if c == '0' && n == 0 {
        if is_d {
            ed(e.mode, Seq::empty(), s.skip(p), 0, e.persis_y)
        } else if is_c {
            ed(Vim::Insert, Seq::empty(), s.skip(p), 0, e.persis_y)
        } else {
            ed(e.mode, e.seq, s, 0, e.persis_y)
        }
    } else if is_digit(c) {
        ed(e.mode, e.seq.push(c), s, p, e.persis_y)
    } else if c == 'h' {
        let ls = line_start(s, lesser(p, len));
        let to = if p > ls {
            greater(ls, p - n1)
        } else {
            p
        };
        operated(e, is_d, is_c, to, p, to, to, to)
    } else if c == 'l' {
        let le = less_one(next_newline(s, lesser(p, len)));
        let to = if p < le {
            lesser(p + n1, le)
        } else {
            p
        };
        operated(e, is_d, is_c, p, to, p, p, to)
    } else if c == '$' {
        let to = less_one(len);
        operated(e, is_d, is_c, p, to + 1, less_one(p), p, to)
    } else if c == '^' || c == '_' {
        let to = first_word(s);
        operated(e, is_d, is_c, lesser(p, to), greater(p, to), lesser(p, to), lesser(p, to), to)
    } else if c == 'w' || c == 'W' {
        let to = moved(s, p, Motion::WordForward, n1 as nat);
        operated(e, is_d, is_c, p, to, p, p, to)
    } else if c == 'b' || c == 'B' {
        let to = moved(s, p, Motion::WordBack, n1 as nat);
        operated(e, is_d, is_c, to, p, to, to, to)
    } else if c == 'e' || c == 'E' {
        let m = if backward_e(k) {
            Motion::WordEndBack
        } else {
            Motion::WordEnd
        };
        let to = moved(s, p, m, n1 as nat);
        let left = lesser(p, to);
        let right = greater(p, to) + 1;
        operated(
            e,
            is_d || k == seq!['d', 'g'],
            is_c || k == seq!['c', 'g'],
            left,
            right,
            left,
            left,
            to,
        )
    } else if c == 'i' {
        ed(Vim::Insert, Seq::empty(), s, p, e.persis_y)
    } else if c == 'I' {
        ed(Vim::Insert, Seq::empty(), s, first_word(s), e.persis_y)
    } else if c == 'a' {
        ed(
            Vim::Insert,
            Seq::empty(),
            s,
            if p < len {
                p + 1
            } else {
                p
            },
            e.persis_y,
        )
    } else if c == 'A' {
        ed(Vim::Insert, Seq::empty(), s, len, e.persis_y)
    } else if c == 'g' {
        if k == seq!['g'] {
            ed(e.mode, Seq::empty(), s, less_one(n), e.persis_y)
        } else {
            ed(e.mode, e.seq.push('g'), s, p, e.persis_y)
        }
    } else if c == 'S' {
        ed(e.mode, Seq::empty(), Seq::empty(), 0, e.persis_y)
    } else if c == 's' {
        let t = if p < len {
            cut(s, p, lesser(p + n1, len))
        } else {
            s
        };
        ed(Vim::Insert, Seq::empty(), t, p, e.persis_y)
    } else if c == 'x' {
        if p < len {
            let r = lesser(n1, len - p);
            ed(
                e.mode,
                Seq::empty(),
                cut(s, p, p + r),
                if p + r == len {
                    less_one(p)
                } else {
                    p
                },
                e.persis_y,
            )
        } else {
            ed(e.mode, Seq::empty(), s, p, e.persis_y)
        }
    } else if c == 'X' {
        let r = lesser(n1, p);
        ed(e.mode, Seq::empty(), cut(s, p - r, p), p - r, e.persis_y)
    } else if c == 'd' {
        if is_d {
            ed(e.mode, Seq::empty(), Seq::empty(), 0, e.persis_y)
        } else if k == seq!['g'] || is_c {
            ed(e.mode, Seq::empty(), s, p, e.persis_y)
        } else {
            ed(e.mode, e.seq.push('d'), s, p, e.persis_y)
        }
    } else if c == 'c' {
        if is_c {
            ed(Vim::Insert, Seq::empty(), Seq::empty(), 0, e.persis_y)
        } else if k == seq!['g'] || is_d {
            ed(e.mode, Seq::empty(), s, p, e.persis_y)
        } else {
            ed(e.mode, e.seq.push('c'), s, p, e.persis_y)
        }
    } else if c == 'D' {
        ed(e.mode, e.seq, s.take(p), p, e.persis_y)
    } else if c == 'C' {
        ed(Vim::Insert, e.seq, s.take(p), p, e.persis_y)
    } else {
        e
    }
}

/// Whether a key can be taken in the state `e`: the keys that would edit outside the text are
/// not (inserting past its end, an operator over a range that leaves it, a backward word
/// motion that starts past its end).
pub open spec fn accepts(e: EditorView, key: Key) -> bool {
    let p = e.cursor;
    let len = e.input.len() as int;
    let n = count_of(e.seq) as int;
    let k = keys_of(e.seq);
    let normal = e.mode == Vim::Normal;
    match key {
        Key::AltEnter => normal || p <= len,
        Key::Backspace => normal || p <= len,
        Key::Char(c) => {
            if !normal {
                p <= len
            } else if c == '0' && n == 0 {
                dc_key(k) ==> p <= len
            } else if is_digit(c) {
                true
            } else if c == 'h' || c == 'l' || c == '^' || c == '_' {
                dc_key(k) ==> p <= len
            } else if c == '$' {
                dc_key(k) ==> 0 < len && p <= len
            } else if c == 'w' || c == 'W' {
                dc_key(k) ==> p < len || p == 0
            } else if c == 'b' || c == 'B' {
                (p <= len || p < 2) && (dc_key(k) ==> p <= len)
            } else if c == 'e' || c == 'E' {
                (backward_e(k) ==> p <= len || p < 2) && (dc_key(k) || k == seq!['d', 'g'] || k
                    == seq!['c', 'g'] ==> p < len)
            } else if c == 'X' || c == 'D' || c == 'C' {
                p <= len
            } else {
                true
            }
        },
        _ => true,
    }
}

/// What a key does to the input line, and what it asks of the program. In both modes: control-q
/// quits; left and right move the cursor (right not past the end) and forget the column; up and
/// down move between lines; delete removes characters (the count of them); enter sends the
/// text (the count of times, at most 10) and empties the line. Alt-enter in insert mode adds a
/// newline. Escape clears the pending keys in normal mode and leaves insert mode one step back.
/// Backspace and typed characters edit in insert mode; in normal mode characters are commands.
pub open spec fn stepped(e: EditorView, key: Key) -> (EditorView, ActView) {
    let s = e.input;
    let p = e.cursor;
    let len = s.len() as int;
    let n = count_of(e.seq) as int;
    let n1 = if n == 0 {
        1
    } else {
        n
    };
    let normal = e.mode == Vim::Normal;
    match key {
        Key::Quit => (e, ActView::Quit),
        Key::Left => (ed(e.mode, e.seq, s, less_one(p), 0), ActView::Nothing),
        Key::Right => {
            if p < len {
                (ed(e.mode, e.seq, s, p + 1, 0), ActView::Nothing)
            } else {
                (e, ActView::Nothing)
            }
        },
        Key::Up => (moved_up(e), ActView::Nothing),
        Key::Down => (moved_down(e), ActView::Nothing),
        Key::Delete => {
            let (t, c) = delete_at(s, p, n1 as nat);
            (ed(e.mode, Seq::empty(), t, c, e.persis_y), ActView::Nothing)
        },
        Key::Enter => (
            ed(e.mode, Seq::empty(), Seq::empty(), 0, e.persis_y),
            ActView::Send(s, lesser(n1, 10)),
        ),
        Key::AltEnter => {
            if normal {
                (
                    ed(e.mode, Seq::empty(), Seq::empty(), 0, e.persis_y),
                    ActView::Send(s, lesser(n1, 10)),
                )
            } else {
                (ed(e.mode, e.seq, s.insert(p, '\n'), p + 1, e.persis_y), ActView::Nothing)
            }
        },
        Key::Esc => {
            if normal {
                (ed(e.mode, Seq::empty(), s, p, e.persis_y), ActView::Nothing)
            } else {
                (ed(Vim::Normal, e.seq, s, less_one(p), e.persis_y), ActView::Nothing)
            }
        },
        Key::Backspace => {
            if !normal && p > 0 {
                (ed(e.mode, e.seq, s.remove(p - 1), p - 1, e.persis_y), ActView::Nothing)
            } else {
                (e, ActView::Nothing)
            }
        },
        Key::Char(c) => {
            if normal {
                (normal_char(e, c, n, keys_of(e.seq)), ActView::Nothing)
            } else {
                (ed(e.mode, e.seq, s.insert(p, c), p + 1, e.persis_y), ActView::Nothing)
            }
        },
        Key::Other => (e, ActView::Nothing),
    }
}

/// `v` without `[a, b)`.
fn cut_out(v: &Vec<char>, a: usize, b: usize) -> (res: Vec<char>)
    requires
        a <= b <= v@.len(),
    ensures
        res@ == cut(v@, a as int, b as int),
{
    let mut out: Vec<char> = Vec::new();
    let mut i: usize = 0;
    while i < a
        invariant
            i <= a <= b <= v@.len(),
            out@ == v@.take(i as int),
        decreases a - i,
    {
        out.push(v[i]);
        i = i + 1;
        assert(out@ =~= v@.take(i as int));
    }
    let mut j: usize = b;
    while j < v.len()
        invariant
            a <= b <= j <= v@.len(),
            out@ == v@.take(a as int) + v@.subrange(b as int, j as int),
        decreases v@.len() - j,
    {
        out.push(v[j]);
        j = j + 1;
        assert(out@ =~= v@.take(a as int) + v@.subrange(b as int, j as int));
    }
    assert(v@.subrange(b as int, j as int) =~= v@.skip(b as int));
    out
}

/// Where `word_end` lands from `p`.
fn word_end_from(s: &Vec<char>, p: usize) -> (r: usize)
    ensures
        r == word_end(s@, p as int),
        p <= r <= greater(p as int, s@.len() as int),
{
    let mut c = p;
    while c < s.len() && !space(s[c])
        invariant
            p <= c <= greater(p as int, s@.len() as int),
            word_end(s@, c as int) == word_end(s@, p as int),
        decreases greater(p as int, s@.len() as int) - c,
    {
        c = c + 1;
    }
    c
}

/// Where `space_end` lands from `p`.
fn space_end_from(s: &Vec<char>, p: usize) -> (r: usize)
    ensures
        r == space_end(s@, p as int),
        p <= r <= greater(p as int, s@.len() as int),
{
    let mut c = p;
    while c < s.len() && space(s[c])
        invariant
            p <= c <= greater(p as int, s@.len() as int),
            space_end(s@, c as int) == space_end(s@, p as int),
        decreases greater(p as int, s@.len() as int) - c,
    {
        c = c + 1;
    }
    c
}

/// Where `space_start` lands from `p`.
fn space_start_from(s: &Vec<char>, p: usize) -> (r: usize)
    requires
        p < s@.len() || p == 0,
    ensures
        r == space_start(s@, p as int),
        r <= p,
{
    let mut c = p;
    while c > 0 && space(s[c])
        invariant
            c <= p,
            p < s@.len() || p == 0,
            space_start(s@, c as int) == space_start(s@, p as int),
        decreases c,
    {
        c = c - 1;
    }
    c
}

/// Where `word_start` lands from `p`.
fn word_start_from(s: &Vec<char>, p: usize) -> (r: usize)
    requires
        p < s@.len() || p == 0,
    ensures
        r == word_start(s@, p as int),
        r <= p,
{
    let mut c = p;
    while c > 0 && !space(s[c])
        invariant
            c <= p,
            p < s@.len() || p == 0,
            word_start(s@, c as int) == word_start(s@, p as int),
        decreases c,
    {
        c = c - 1;
    }
    c
}

/// Whether a motion goes backwards.
pub open spec fn backward(m: Motion) -> bool {
    m == Motion::WordBack || m == Motion::WordEndBack
}

/// Where one word motion from `p` lands (see `moved_once`).
fn motion_once(s: &Vec<char>, p: usize, m: Motion) -> (r: usize)
    requires
        backward(m) ==> p <= s@.len() || p < 2,
    ensures
        r == moved_once(s@, p as int, m),
        r <= greater(p as int, s@.len() as int),
        backward(m) ==> r <= s@.len() || r < 2,
        m == Motion::WordBack ==> r <= p,
        m == Motion::WordForward && p < s@.len() ==> p <= r < s@.len(),
        m != Motion::WordForward && m != Motion::WordBack && p < s@.len() ==> r < s@.len(),
{
    let len = s.len();
    let last: usize = if len > 0 {
        len - 1
    } else {
        0
    };
    let back: usize = if p > 0 {
        p - 1
    } else {
        0
    };
    match m {
        Motion::WordForward => {
            let c = space_end_from(s, word_end_from(s, p));
            if c < last {
                c
            } else {
                last
            }
        },
        Motion::WordBack => {
            let c = word_start_from(s, space_start_from(s, back));
            if c > 0 {
                c + 1
            } else {
                c
            }
        },
        Motion::WordEnd => {
            let start = if p < len {
                p + 1
            } else {
                p
            };
            let c = word_end_from(s, space_end_from(s, start));
            if c > 0 {
                c - 1
            } else {
                0
            }
        },
        Motion::WordEndBack => {
            let c = word_end_from(s, word_start_from(s, space_start_from(s, back)));
            if c > 0 {
                c - 1
            } else {
                0
            }
        },
    }
}

/// Where `n` word motions from `p` land (see `moved`).
fn motion(s: &Vec<char>, p: usize, m: Motion, n: usize) -> (r: usize)
    requires
        backward(m) ==> p <= s@.len() || p < 2,
    ensures
        r == moved(s@, p as int, m, n as nat),
        r <= greater(p as int, s@.len() as int),
        m == Motion::WordBack ==> r <= p,
        m == Motion::WordForward && p < s@.len() ==> p <= r < s@.len(),
        m != Motion::WordForward && m != Motion::WordBack && p < s@.len() ==> r < s@.len(),
{
    let mut c = p;
    let mut left = n;
    while left > 0
        invariant
            moved(s@, c as int, m, left as nat) == moved(s@, p as int, m, n as nat),
            c <= greater(p as int, s@.len() as int),
            backward(m) ==> c <= s@.len() || c < 2,
            m == Motion::WordBack ==> c <= p,
            m == Motion::WordForward && p < s@.len() ==> p <= c < s@.len(),
            m != Motion::WordForward && m != Motion::WordBack && p < s@.len() ==> c < s@.len(),
        decreases left,
    {
        c = motion_once(s, c, m);
        left = left - 1;
    }
    c
}

/// Where the line holding `b` starts (see `line_start`).
fn line_start_at(s: &Vec<char>, b: usize) -> (r: usize)
    requires
        b <= s@.len(),
    ensures
        r == line_start(s@, b as int),
        r <= b,
{
    let mut i = b;
    while i > 0 && s[i - 1] != '\n'
        invariant
            i <= b <= s@.len(),
            last_newline_before(s@, i as int) == last_newline_before(s@, b as int),
        decreases i,
    {
        i = i - 1;
    }
    i
}

/// The first newline at or after `b`, or the length (see `next_newline`).
fn next_newline_at(s: &Vec<char>, b: usize) -> (r: usize)
    requires
        b <= s@.len(),
    ensures
        r == next_newline(s@, b as int),
        b <= r <= s@.len(),
{
    let mut i = b;
    while i < s.len() && s[i] != '\n'
        invariant
            b <= i <= s@.len(),
            next_newline(s@, i as int) == next_newline(s@, b as int),
        decreases s@.len() - i,
    {
        i = i + 1;
    }
    i
}

/// Where the first word starts (see `first_word`).
fn first_word_of(s: &Vec<char>) -> (r: usize)
    ensures
        r == first_word(s@),
        r <= s@.len(),
        r == 0 || r < s@.len(),
{
    let len = s.len();
    if len > 0 && s[0] == ' ' {
        let c = space_end_from(s, word_end_from(s, 0));
        if c < len - 1 {
            c
        } else {
            len - 1
        }
    } else {
        0
    }
}

/// Whether the pending operator is the single key `a`.
fn keys_are_one(k: &Vec<char>, a: char) -> (res: bool)
    ensures
        res == (k@ == seq![a]),
{
    if k.len() == 1 && k[0] == a {
        assert(k@ =~= seq![a]);
        true
    } else {
        false
    }
}

/// Whether the pending operator is the two keys `a`, `b`.
fn keys_are_two(k: &Vec<char>, a: char, b: char) -> (res: bool)
    ensures
        res == (k@ == seq![a, b]),
{
    if k.len() == 2 && k[0] == a && k[1] == b {
        assert(k@ =~= seq![a, b]);
        true
    } else {
        false
    }
}

impl Editor {
    /// Whether the pending keys are ASCII (they are digits and operator letters).
    pub open spec fn well_formed(&self) -> bool {
        all_ascii(self.seq@)
    }

    /// An empty input line in normal mode.
    pub fn new() -> (e: Editor)
        ensures
            e@ == ed(Vim::Normal, Seq::empty(), Seq::empty(), 0, 0),
            e.well_formed(),
    {
        Editor { mode: Vim::Normal, seq: Vec::new(), input: Vec::new(), cursor: 0, persis_y: 0 }
    }

    /// The count of the pending keys (see `count_of`).
    pub fn count(&self) -> (n: usize)
        requires
            self.well_formed(),
        ensures
            n == count_of(self.seq@),
    {
        count_from(&self.seq)
    }

    /// Whether `key` can be taken now (see `accepts`).
    pub fn accepts_key(&self, key: Key) -> (ok: bool)
        requires
            self.well_formed(),
        ensures
            ok == accepts(self@, key),
    {
        let p = self.cursor;
        let len = self.input.len();
        let normal = self.mode == Vim::Normal;
        match key {
            Key::AltEnter => normal || p <= len,
            Key::Backspace => normal || p <= len,
            Key::Char(c) => {
                if !normal {
                    return p <= len;
                }
                let n = count_from(&self.seq);
                let k = keys_from(&self.seq);
                let dc = keys_are_one(&k, 'd') || keys_are_one(&k, 'c');
                if c == '0' && n == 0 {
                    !dc || p <= len
                } else if '0' <= c && c <= '9' {
                    true
                } else if c == 'h' || c == 'l' || c == '^' || c == '_' {
                    !dc || p <= len
                } else if c == '$' {
                    !dc || (0 < len && p <= len)
                } else if c == 'w' || c == 'W' {
                    !dc || p < len || p == 0
                } else if c == 'b' || c == 'B' {
                    (p <= len || p < 2) && (!dc || p <= len)
                } else if c == 'e' || c == 'E' {
                    let back = keys_are_one(&k, 'g') || keys_are_two(&k, 'd', 'g')
                        || keys_are_two(&k, 'c', 'g');
                    let op = dc || keys_are_two(&k, 'd', 'g') || keys_are_two(&k, 'c', 'g');
                    (!back || p <= len || p < 2) && (!op || p < len)
                } else if c == 'X' || c == 'D' || c == 'C' {
                    p <= len
                } else {
                    true
                }
            },
            _ => true,
        }
    }

    /// A motion's outcome under the pending operator (see `operated`).
    fn operate(
        &mut self,
        is_d: bool,
        is_c: bool,
        a: usize,
        b: usize,
        at_d: usize,
        at_c: usize,
        to: usize,
    )
        requires
            is_d || is_c ==> a <= b <= old(self).input@.len(),
        ensures
            final(self)@ == operated(
                old(self)@,
                is_d,
                is_c,
                a as int,
                b as int,
                at_d as int,
                at_c as int,
                to as int,
            ),
            final(self).well_formed(),
    {
        if is_d {
            self.input = cut_out(&self.input, a, b);
            self.cursor = at_d;
        } else if is_c {
            self.input = cut_out(&self.input, a, b);
            self.cursor = at_c;
            self.mode = Vim::Insert;
        } else {
            self.cursor = to;
        }
        self.seq = Vec::new();
        assert(self@.seq =~= Seq::<char>::empty());
    }
}

impl Editor {
    /// The up arrow (see `moved_up`).
    fn up(&mut self)
        ensures
            final(self)@ == moved_up(old(self)@),
            final(self).seq@ == old(self).seq@,
    {
        let len = self.input.len();
        let p = self.cursor;
        let b = if p < len {
            p
        } else {
            len
        };
        let ls = line_start_at(&self.input, b);
        let col = b - ls;
        let py = if self.persis_y < col {
            col
        } else {
            self.persis_y
        };
        self.persis_y = py;
        if ls > 0 {
            let ps = line_start_at(&self.input, ls - 1);
            let plen = ls - 1 - ps;
            let target = if py < plen {
                py
            } else {
                plen
            };
            let back = col + 1 + (plen - target);
            self.cursor = p.saturating_sub(back);
        }
    }

    /// The down arrow (see `moved_down`).
    fn down(&mut self)
        ensures
            final(self)@ == moved_down(old(self)@),
            final(self).seq@ == old(self).seq@,
    {
        let len = self.input.len();
        let p = self.cursor;
        let b = if p < len {
            p
        } else {
            len
        };
        let ls = line_start_at(&self.input, b);
        let col = b - ls;
        let py = if self.persis_y < col {
            col
        } else {
            self.persis_y
        };
        self.persis_y = py;
        let nl = next_newline_at(&self.input, b);
        if nl < len {
            let cur_len = nl - ls;
            let nn = next_newline_at(&self.input, nl + 1);
            let next_len = nn - (nl + 1);
            let target = if py < next_len {
                py
            } else {
                next_len
            };
            self.cursor = p + (cur_len - col) + 1 + target;
        }
    }

    /// The delete key, `n` times (see `delete_at`); the pending keys are cleared.
    fn delete(&mut self, n: usize)
        ensures
            final(self)@ == ed(
                old(self).mode,
                Seq::empty(),
                delete_at(old(self).input@, old(self).cursor as int, n as nat).0,
                delete_at(old(self).input@, old(self).cursor as int, n as nat).1,
                old(self).persis_y as int,
            ),
    {
        let ghost s0 = self.input@;
        let ghost p0 = self.cursor as int;
        let mut left = n;
        while left > 0
            invariant
                delete_at(self.input@, self.cursor as int, left as nat) == delete_at(s0, p0, n as nat),
                self.mode == old(self).mode,
                self.persis_y == old(self).persis_y,
            decreases left,
        {
            let c = self.cursor;
            if c < self.input.len() {
                self.input.remove(c);
                if c == self.input.len() {
                    self.cursor = if c > 0 {
                        c - 1
                    } else {
                        0
                    };
                }
            }
            left = left - 1;
        }
        self.seq = Vec::new();
        assert(self.seq@ =~= Seq::<char>::empty());
    }

    /// Enter: the text goes out (the count of times, 1 to 10) and the line empties.
    fn send(&mut self, n: usize) -> (act: EditAction)
        ensures
            final(self)@ == ed(old(self).mode, Seq::empty(), Seq::empty(), 0, old(self).persis_y as int),
            act@ == ActView::Send(old(self).input@, lesser(n as int, 10)),
    {
        let text = string_of(&self.input, 0, self.input.len());
        assert(self.input@.subrange(0, self.input@.len() as int) =~= self.input@);
        self.input = Vec::new();
        self.seq = Vec::new();
        self.cursor = 0;
        assert(self.seq@ =~= Seq::<char>::empty());
        assert(self.input@ =~= Seq::<char>::empty());
        EditAction::Send(
            text,
            if n < 10 {
                n
            } else {
                10
            },
        )
    }

    /// A motion command in normal mode (`h`, `l`, `$`, `^`, `_`, `w`, `b`, `e` and their
    /// capitals), under the pending operator.
    fn motion_command(&mut self, c: char, n: usize, k: &Vec<char>)
        requires
            old(self).well_formed(),
            old(self).mode == Vim::Normal,
            n == count_of(old(self).seq@),
            k@ == keys_of(old(self).seq@),
            accepts(old(self)@, Key::Char(c)),
            !(c == '0' && n == 0),
            !is_digit(c),
            c == 'h' || c == 'l' || c == '$' || c == '^' || c == '_' || c == 'w' || c == 'W' || c
                == 'b' || c == 'B' || c == 'e' || c == 'E',
        ensures
            final(self).well_formed(),
            final(self)@ == normal_char(old(self)@, c, n as int, k@),
    {
        let len = self.input.len();
        let p = self.cursor;
        let n1 = if n == 0 {
            1
        } else {
            n
        };
        let is_d = keys_are_one(k, 'd');
        let is_c = keys_are_one(k, 'c');
        if c == 'h' {
            let b = if p < len {
                p
            } else {
                len
            };
            let ls = line_start_at(&self.input, b);
            let to = if p > ls {
                if p - ls > n1 {
                    p - n1
                } else {
                    ls
                }
            } else {
                p
            };
            self.operate(is_d, is_c, to, p, to, to, to);
        } else if c == 'l' {
            let b = if p < len {
                p
            } else {
                len
            };
            let nl = next_newline_at(&self.input, b);
            let le = if nl > 0 {
                nl - 1
            } else {
                0
            };
            let to = if p < le {
                if le - p > n1 {
                    p + n1
                } else {
                    le
                }
            } else {
                p
            };
            self.operate(is_d, is_c, p, to, p, p, to);
        } else if c == '$' {
            let to = if len > 0 {
                len - 1
            } else {
                0
            };
            let back = if p > 0 {
                p - 1
            } else {
                0
            };
            self.operate(is_d, is_c, p, to + 1, back, p, to);
        } else if c == '^' || c == '_' {
            let to = first_word_of(&self.input);
            let left = if p < to {
                p
            } else {
                to
            };
            let right = if p < to {
                to
            } else {
                p
            };
            self.operate(is_d, is_c, left, right, left, left, to);
        } else if c == 'w' || c == 'W' {
            let to = motion(&self.input, p, Motion::WordForward, n1);
            self.operate(is_d, is_c, p, to, p, p, to);
        } else if c == 'b' || c == 'B' {
            let to = motion(&self.input, p, Motion::WordBack, n1);
            self.operate(is_d, is_c, to, p, to, to, to);
        } else {
            let back = keys_are_one(k, 'g') || keys_are_two(k, 'd', 'g') || keys_are_two(
                k,
                'c',
                'g',
            );
            let m = if back {
                Motion::WordEndBack
            } else {
                Motion::WordEnd
            };
            let to = motion(&self.input, p, m, n1);
            let op_d = is_d || keys_are_two(k, 'd', 'g');
            let op_c = is_c || keys_are_two(k, 'c', 'g');
            if op_d || op_c {
                let left = if p < to {
                    p
                } else {
                    to
                };
                let right = if p < to {
                    to + 1
                } else {
                    p + 1
                };
                self.operate(op_d, op_c, left, right, left, left, to);
            } else {
                self.operate(false, false, 0, 0, 0, 0, to);
            }
        }
    }

    /// Any other command in normal mode (see `normal_char`).
    fn other_command(&mut self, c: char, n: usize, k: &Vec<char>)
        requires
            old(self).well_formed(),
            old(self).mode == Vim::Normal,
            n == count_of(old(self).seq@),
            k@ == keys_of(old(self).seq@),
            accepts(old(self)@, Key::Char(c)),
            !(c == 'h' || c == 'l' || c == '$' || c == '^' || c == '_' || c == 'w' || c == 'W' || c
                == 'b' || c == 'B' || c == 'e' || c == 'E'),
        ensures
            final(self).well_formed(),
            final(self)@ == normal_char(old(self)@, c, n as int, k@),
    {
        let len = self.input.len();
        let p = self.cursor;
        let n1 = if n == 0 {
            1
        } else {
            n
        };
        let is_d = keys_are_one(k, 'd');
        let is_c = keys_are_one(k, 'c');
        let is_g = keys_are_one(k, 'g');
        let ghost s = self.input@;
        if c == '0' && n == 0 {
            self.cursor = 0;
            if is_d {
                self.input = cut_out(&self.input, 0, p);
                assert(self.input@ =~= s.skip(p as int));
                self.seq = Vec::new();
            } else if is_c {
                self.input = cut_out(&self.input, 0, p);
                assert(self.input@ =~= s.skip(p as int));
                self.seq = Vec::new();
                self.mode = Vim::Insert;
            }
        } else if '0' <= c && c <= '9' {
            self.seq.push(c);
        } else if c == 'i' {
            self.seq = Vec::new();
            self.mode = Vim::Insert;
        } else if c == 'I' {
            self.seq = Vec::new();
            self.cursor = first_word_of(&self.input);
            self.mode = Vim::Insert;
        } else if c == 'a' {
            self.seq = Vec::new();
            if p < len {
                self.cursor = p + 1;
            }
            self.mode = Vim::Insert;
        } else if c == 'A' {
            self.seq = Vec::new();
            self.cursor = len;
            self.mode = Vim::Insert;
        } else if c == 'g' {
            if is_g {
                self.cursor = if n > 0 {
                    n - 1
                } else {
                    0
                };
                self.seq = Vec::new();
            } else {
                self.seq.push('g');
            }
        } else if c == 'S' {
            self.input = Vec::new();
            self.seq = Vec::new();
            self.cursor = 0;
        } else if c == 's' {
            if p < len {
                let end = if len - p > n1 {
                    p + n1
                } else {
                    len
                };
                self.input = cut_out(&self.input, p, end);
            }
            self.seq = Vec::new();
            self.mode = Vim::Insert;
        } else if c == 'x' {
            if p < len {
                let r = if len - p < n1 {
                    len - p
                } else {
                    n1
                };
                self.input = cut_out(&self.input, p, p + r);
                if p + r == len {
                    self.cursor = if p > 0 {
                        p - 1
                    } else {
                        0
                    };
                }
            }
            self.seq = Vec::new();
        } else if c == 'X' {
            let r = if p < n1 {
                p
            } else {
                n1
            };
            self.input = cut_out(&self.input, p - r, p);
            self.cursor = p - r;
            self.seq = Vec::new();
        } else if c == 'd' {
            if is_d {
                self.input = Vec::new();
                self.seq = Vec::new();
                self.cursor = 0;
            } else if is_g || is_c {
                self.seq = Vec::new();
            } else {
                self.seq.push('d');
            }
        } else if c == 'c' {
            if is_c {
                self.input = Vec::new();
                self.seq = Vec::new();
                self.cursor = 0;
                self.mode = Vim::Insert;
            } else if is_g || is_d {
                self.seq = Vec::new();
            } else {
                self.seq.push('c');
            }
        } else if c == 'D' || c == 'C' {
            self.input = cut_out(&self.input, p, len);
            assert(self.input@ =~= s.take(p as int));
            if c == 'C' {
                self.mode = Vim::Insert;
            }
        }
        assert(self.seq@ == Seq::<char>::empty() || self.seq@ == old(self).seq@ || self.seq@
            == old(self).seq@.push(c) || self.seq@ == old(self).seq@.push('g'));
        assert(self@.seq =~= normal_char(old(self)@, c, n as int, k@).seq);
        assert(self@.input =~= normal_char(old(self)@, c, n as int, k@).input);
    }

    /// What a key does (see `stepped`); the key must be one the state accepts (see `accepts`).
    pub fn handle(&mut self, key: Key) -> (act: EditAction)
        requires
            old(self).well_formed(),
            accepts(old(self)@, key),
        ensures
            final(self).well_formed(),
            final(self)@ == stepped(old(self)@, key).0,
            act@ == stepped(old(self)@, key).1,
    {
        let n = count_from(&self.seq);
        let n1 = if n == 0 {
            1
        } else {
            n
        };
        let len = self.input.len();
        let p = self.cursor;
        let normal = self.mode == Vim::Normal;
        match key {
            Key::Quit => EditAction::Quit,
            Key::Left => {
                self.cursor = if p > 0 {
                    p - 1
                } else {
                    0
                };
                self.persis_y = 0;
                EditAction::Nothing
            },
            Key::Right => {
                if p < len {
                    self.cursor = p + 1;
                    self.persis_y = 0;
                }
                EditAction::Nothing
            },
            Key::Up => {
                self.up();
                EditAction::Nothing
            },
            Key::Down => {
                self.down();
                EditAction::Nothing
            },
            Key::Delete => {
                self.delete(n1);
                EditAction::Nothing
            },
            Key::Enter => self.send(n1),
            Key::AltEnter => {
                if normal {
                    self.send(n1)
                } else {
                    self.input.insert(p, '\n');
                    let grown = self.input.len();
                    assert(p < grown);
                    self.cursor = p + 1;
                    EditAction::Nothing
                }
            },
            Key::Esc => {
                if normal {
                    self.seq = Vec::new();
                    assert(self.seq@ =~= Seq::<char>::empty());
                } else {
                    self.mode = Vim::Normal;
                    self.cursor = if p > 0 {
                        p - 1
                    } else {
                        0
                    };
                }
                EditAction::Nothing
            },
            Key::Backspace => {
                if !normal && p > 0 {
                    self.input.remove(p - 1);
                    self.cursor = p - 1;
                }
                EditAction::Nothing
            },
            Key::Char(c) => {
                if normal {
                    let k = keys_from(&self.seq);
                    if c == 'h' || c == 'l' || c == '$' || c == '^' || c == '_' || c == 'w' || c
                        == 'W' || c == 'b' || c == 'B' || c == 'e' || c == 'E' {
                        self.motion_command(c, n, &k);
                    } else {
                        self.other_command(c, n, &k);
                    }
                } else {
                    self.input.insert(p, c);
                    let grown = self.input.len();
                    assert(p < grown);
                    self.cursor = p + 1;
                }
                EditAction::Nothing
            },
            Key::Other => EditAction::Nothing,
        }
    }
}

/// Typing a character in insert mode and then backspace gives back the line as it was.
#[verifier::rlimit(30)]
pub proof fn law_type_then_erase(e: EditorView, c: char)
    requires
        e.mode == Vim::Insert,
        0 <= e.cursor <= e.input.len(),
    ensures
        stepped(stepped(e, Key::Char(c)).0, Key::Backspace).0 == e,
{
    let p = e.cursor;
    let typed = ed(e.mode, e.seq, e.input.insert(p, c), p + 1, e.persis_y);
    assert(stepped(e, Key::Char(c)).0 == typed);
    assert(typed.input.remove(p) =~= e.input);
    assert(stepped(typed, Key::Backspace).0 == ed(e.mode, e.seq, typed.input.remove(p), p, e.persis_y));
}

/// The keys that enter insert mode from normal mode keep the text, clear the pending keys and
/// place the cursor where the typing goes: `i` at the cursor, `a` one past it (not past the
/// end), `A` at the end of the text. So a character typed after `A` lands at the end of the
/// text.
pub proof fn law_insert_keys(e: EditorView, c: char)
    requires
        e.mode == Vim::Normal,
        0 <= e.cursor <= e.input.len(),
    ensures
        ({
            let i = stepped(e, Key::Char('i')).0;
            let a = stepped(e, Key::Char('a')).0;
            let end = stepped(e, Key::Char('A')).0;
            &&& i.mode == Vim::Insert && a.mode == Vim::Insert && end.mode == Vim::Insert
            &&& i.input == e.input && a.input == e.input && end.input == e.input
            &&& i.seq.len() == 0 && a.seq.len() == 0 && end.seq.len() == 0
            &&& i.cursor == e.cursor
            &&& a.cursor == (if e.cursor < e.input.len() { e.cursor + 1 } else { e.cursor })
            &&& end.cursor == e.input.len()
        }),
        stepped(stepped(e, Key::Char('A')).0, Key::Char(c)).0.input == e.input.push(c),
        stepped(stepped(e, Key::Char('A')).0, Key::Char(c)).0.cursor == e.input.len() + 1,
{
    assert(e.input.insert(e.input.len() as int, c) =~= e.input.push(c));
}

/// With no count or operator pending, the one-key commands of normal mode do what vim does to
/// the line: `x` deletes the character under the cursor (stepping back when it was the last),
/// `s` deletes it and enters insert mode, `D` deletes to the end of the line and `C` does so
/// and enters insert mode, `S` empties the line, `0` goes to its start, `$` to its last
/// character, and enter sends the line once and empties it. Escape leaves insert mode one
/// character back, keeping the text.
#[verifier::rlimit(30)]
pub proof fn law_normal_commands(e: EditorView)
    requires
        e.mode == Vim::Normal,
        e.seq.len() == 0,
        0 <= e.cursor < e.input.len(),
    ensures
        ({
            let s = e.input;
            let p = e.cursor;
            let x = stepped(e, Key::Char('x')).0;
            let sub = stepped(e, Key::Char('s')).0;
            let d_end = stepped(e, Key::Char('D')).0;
            let c_end = stepped(e, Key::Char('C')).0;
            let clear = stepped(e, Key::Char('S')).0;
            let home = stepped(e, Key::Char('0')).0;
            let last = stepped(e, Key::Char('$')).0;
            &&& x.input == s.remove(p) && x.mode == Vim::Normal
            &&& x.cursor == (if p + 1 < s.len() || p == 0 { p } else { p - 1 })
            &&& sub.input == s.remove(p) && sub.mode == Vim::Insert && sub.cursor == p
            &&& d_end.input == s.take(p) && d_end.mode == Vim::Normal && d_end.cursor == p
            &&& c_end.input == s.take(p) && c_end.mode == Vim::Insert && c_end.cursor == p
            &&& clear.input.len() == 0 && clear.cursor == 0
            &&& home.input == s && home.cursor == 0
            &&& last.input == s && last.cursor == s.len() - 1
            &&& stepped(e, Key::Enter).1 == ActView::Send(s, 1) && stepped(e, Key::Enter).0.input.len() == 0
        }),
        ({
            let ins = EditorView { mode: Vim::Insert, ..e };
            let out = stepped(ins, Key::Esc).0;
            out.mode == Vim::Normal && out.input == e.input && out.cursor == (if e.cursor > 0 { e.cursor - 1 } else { 0 })
        }),
{
    let s = e.input;
    let p = e.cursor;
    assert(runs(e.seq, false) =~= Seq::<Seq<char>>::empty());
    assert(runs(e.seq, true) =~= Seq::<Seq<char>>::empty());
    assert(count_of(e.seq) == 0);
    assert(keys_of(e.seq) =~= Seq::<char>::empty());
    assert(cut(s, p, p + 1) =~= s.remove(p));
    assert(stepped(e, Key::Char('x')).0.input == s.remove(p));
    assert(stepped(e, Key::Char('s')).0.input == s.remove(p));
    assert(stepped(e, Key::Char('D')).0.input == s.take(p));
    assert(stepped(e, Key::Char('C')).0.input == s.take(p));
    assert(stepped(e, Key::Char('S')).0.input.len() == 0);
    assert(stepped(e, Key::Char('0')).0.cursor == 0);
    assert(stepped(e, Key::Char('$')).0.cursor == s.len() - 1);
    assert(stepped(e, Key::Enter).1 == ActView::Send(s, 1));
}

/// `dd` empties the line and stays in normal mode; `cc` empties it and enters insert mode;
/// either way the cursor goes to the start and nothing stays pending.
pub proof fn law_whole_line_operators(e: EditorView)
    requires
        e.mode == Vim::Normal,
    ensures
        ({
            let d = stepped(EditorView { seq: seq!['d'], ..e }, Key::Char('d')).0;
            let c = stepped(EditorView { seq: seq!['c'], ..e }, Key::Char('c')).0;
            &&& d.input.len() == 0 && d.cursor == 0 && d.mode == Vim::Normal && d.seq.len() == 0
            &&& c.input.len() == 0 && c.cursor == 0 && c.mode == Vim::Insert && c.seq.len() == 0
        }),
{
    lemma_single_letter_keys('d');
    lemma_single_letter_keys('c');
}

/// A single pending letter is an operator with no count.
proof fn lemma_single_letter_keys(l: char)
    requires
        is_letter(l),
    ensures
        count_of(seq![l]) == 0,
        keys_of(seq![l]) == seq![l],
{
    let s = seq![l];
    assert(s.drop_first() =~= Seq::<char>::empty());
    assert(runs(s.drop_first(), false) =~= Seq::<Seq<char>>::empty());
    assert(runs(s.drop_first(), true) =~= Seq::<Seq<char>>::empty());
    assert(!is_digit(l));
    assert(runs(s, false) =~= Seq::<Seq<char>>::empty());
    assert(runs(s, true) =~= seq![seq![l]]);
    let r = runs(s, true);
    assert(r.drop_last() =~= Seq::<Seq<char>>::empty());
    assert(concat(r.drop_last()) =~= Seq::<char>::empty());
    assert(concat(r) =~= seq![l]);
}

/// On a line without line breaks, with nothing pending, `l` moves the cursor one character
/// right (not past the last character) and `h` one left (not before the first), keeping the
/// text; `h` undoes `l` wherever `l` moved.
pub proof fn law_left_right(e: EditorView)
    requires
        e.mode == Vim::Normal,
        e.seq.len() == 0,
        0 <= e.cursor < e.input.len(),
        !e.input.contains('\n'),
    ensures
        ({
            let l = stepped(e, Key::Char('l')).0;
            let h = stepped(e, Key::Char('h')).0;
            &&& l.input == e.input && h.input == e.input && l.mode == Vim::Normal && h.mode == Vim::Normal
            &&& l.cursor == (if e.cursor + 1 < e.input.len() { e.cursor + 1 } else { e.cursor })
            &&& h.cursor == (if e.cursor > 0 { e.cursor - 1 } else { 0 })
            &&& e.cursor + 1 < e.input.len() ==> stepped(l, Key::Char('h')).0 == e
        }),
{
    let s = e.input;
    let p = e.cursor;
    assert(runs(e.seq, false) =~= Seq::<Seq<char>>::empty());
    assert(runs(e.seq, true) =~= Seq::<Seq<char>>::empty());
    assert(keys_of(e.seq) =~= Seq::<char>::empty());
    lemma_no_newline_before(s, p);
    lemma_no_newline_after(s, p);
    if p + 1 < s.len() {
        lemma_no_newline_before(s, p + 1);
        let l = stepped(e, Key::Char('l')).0;
        assert(l.seq =~= e.seq);
        assert(stepped(l, Key::Char('h')).0 =~= e);
    }
}

/// In a text without line breaks, no line break comes before a position.
proof fn lemma_no_newline_before(s: Seq<char>, b: int)
    requires
        !s.contains('\n'),
        b <= s.len(),
    ensures
        last_newline_before(s, b) == -1,
    decreases b,
{
    if b > 0 {
        assert(s[b - 1] != '\n');
        lemma_no_newline_before(s, b - 1);
    }
}

/// In a text without line breaks, the line runs to the end of the text.
proof fn lemma_no_newline_after(s: Seq<char>, b: int)
    requires
        !s.contains('\n'),
        0 <= b,
    ensures
        next_newline(s, b) == s.len(),
    decreases s.len() - b,
{
    if b < s.len() {
        assert(s[b] != '\n');
        lemma_no_newline_after(s, b + 1);
    }
}

/// A count typed before a command repeats it: in normal mode with nothing pending, a digit
/// from 1 to 9 only joins the pending keys; then `x` deletes that many characters from the
/// cursor on (where the text has them) and nothing stays pending.
pub proof fn law_counted_delete(e: EditorView, d: char)
    requires
        e.mode == Vim::Normal,
        e.seq.len() == 0,
        '1' <= d <= '9',
        0 <= e.cursor,
        e.cursor + (d as int - 48) <= e.input.len(),
    ensures
        stepped(e, Key::Char(d)).0 == (EditorView { seq: seq![d], ..e }),
        ({
            let k = d as int - 48;
            let after = stepped(EditorView { seq: seq![d], ..e }, Key::Char('x')).0;
            &&& after.input == e.input.take(e.cursor) + e.input.skip(e.cursor + k)
            &&& after.seq.len() == 0 && after.mode == Vim::Normal
        }),
{
    assert(runs(e.seq, false) =~= Seq::<Seq<char>>::empty());
    assert(runs(e.seq, true) =~= Seq::<Seq<char>>::empty());
    assert(keys_of(e.seq) =~= Seq::<char>::empty());
    assert(e.seq.push(d) =~= seq![d]);
    lemma_single_digit_count(d);
}

/// A single pending digit is a count of its value, with no operator.
proof fn lemma_single_digit_count(d: char)
    requires
        '1' <= d <= '9',
    ensures
        count_of(seq![d]) == d as int - 48,
        keys_of(seq![d]) == Seq::<char>::empty(),
{
    let s = seq![d];
    assert(s.drop_first() =~= Seq::<char>::empty());
    assert(runs(s.drop_first(), false) =~= Seq::<Seq<char>>::empty());
    assert(runs(s.drop_first(), true) =~= Seq::<Seq<char>>::empty());
    assert(runs(s, false) =~= seq![seq![d]]);
    assert(runs(s, true) =~= Seq::<Seq<char>>::empty());
    assert(s.drop_last() =~= Seq::<char>::empty());
    assert(s.last() == d);
    assert(digits_value(s.drop_last()) == 0);
    assert(digits_value(s) == digits_value(s.drop_last()) * 10 + (s.last() as int - 48));
    assert(digits_value(s) == d as int - 48);
    assert(run_value(s) == d as int - 48);
    let r = runs(s, false);
    assert(r.drop_last() =~= Seq::<Seq<char>>::empty());
    assert(r.last() == s);
    assert(total_of(r.drop_last()) == 0);
    assert(total_of(r) == d as int - 48);
}

/// More single keys with nothing pending: `X` deletes the character before the cursor and
/// steps back onto its place; the delete key removes the character under the cursor
/// (stepping back when it was the last); `I` on a text that does not start with a space goes
/// to its start in insert mode; in insert mode alt-enter breaks the line at the cursor.
pub proof fn law_more_single_keys(e: EditorView)
    requires
        e.mode == Vim::Normal,
        e.seq.len() == 0,
        0 < e.cursor < e.input.len(),
    ensures
        ({
            let s = e.input;
            let p = e.cursor;
            let bx = stepped(e, Key::Char('X')).0;
            let del = stepped(e, Key::Delete).0;
            &&& bx.input == s.remove(p - 1) && bx.cursor == p - 1 && bx.mode == Vim::Normal
            &&& del.input == s.remove(p) && del.cursor == (if p + 1 < s.len() { p } else { p - 1 })
        }),
        e.input[0] != ' ' ==> stepped(e, Key::Char('I')).0.cursor == 0 && stepped(e, Key::Char('I')).0.mode
            == Vim::Insert && stepped(e, Key::Char('I')).0.input == e.input,
        ({
            let ins = EditorView { mode: Vim::Insert, ..e };
            let br = stepped(ins, Key::AltEnter).0;
            br.input == e.input.insert(e.cursor, '\n') && br.cursor == e.cursor + 1 && br.mode == Vim::Insert
        }),
{
    let s = e.input;
    let p = e.cursor;
    assert(runs(e.seq, false) =~= Seq::<Seq<char>>::empty());
    assert(runs(e.seq, true) =~= Seq::<Seq<char>>::empty());
    assert(count_of(e.seq) == 0);
    assert(keys_of(e.seq) =~= Seq::<char>::empty());
    assert(cut(s, p - 1, p) =~= s.remove(p - 1));
    let t = s.remove(p);
    assert(delete_at(s, p, 1) == delete_at(t, if p == t.len() { less_one(p) } else { p }, 0));
}

/// Whether a text holds no white space.
pub open spec fn no_space(t: Seq<char>) -> bool {
    forall|i: int| 0 <= i < t.len() ==> !is_space(#[trigger] t[i])
}

/// Word motions over two words with a space between them, with nothing pending: `w` from
/// anywhere in the first word goes to the start of the second, and `b` from there goes back
/// to the start of the first; neither changes the text or the mode.
pub proof fn law_word_motions(e: EditorView, a: Seq<char>, b: Seq<char>)
    requires
        e.mode == Vim::Normal,
        e.seq.len() == 0,
        a.len() > 0,
        b.len() > 0,
        no_space(a),
        no_space(b),
        e.input == a + seq![' '] + b,
        0 <= e.cursor < a.len(),
    ensures
        stepped(e, Key::Char('w')).0 == (EditorView { cursor: a.len() + 1int, ..e }),
        stepped(EditorView { cursor: a.len() + 1int, ..e }, Key::Char('b')).0 == (EditorView { cursor: 0, ..e }),
{
    let s = e.input;
    let n = a.len() as int;
    assert(runs(e.seq, false) =~= Seq::<Seq<char>>::empty());
    assert(runs(e.seq, true) =~= Seq::<Seq<char>>::empty());
    assert(count_of(e.seq) == 0);
    assert(keys_of(e.seq) =~= Seq::<char>::empty());
    assert(is_space(' '));
    assert forall|i: int| 0 <= i < n implies !is_space(#[trigger] s[i]) by {
        assert(s[i] == a[i]);
    }
    assert forall|i: int| n + 1 <= i < s.len() implies !is_space(#[trigger] s[i]) by {
        assert(s[i] == b[i - n - 1]);
    }
    assert(s[n] == ' ');
    lemma_word_end_run(s, e.cursor, n);
    lemma_space_end_one(s, n);
    assert(s.len() == n + 1 + b.len());
    assert(moved_once(s, e.cursor, Motion::WordForward) == n + 1);
    assert(moved(s, e.cursor, Motion::WordForward, 1) == moved(s, n + 1, Motion::WordForward, 0));
    assert(stepped(e, Key::Char('w')).0 =~= (EditorView { cursor: a.len() + 1int, ..e }));
    lemma_word_start_run(s, n - 1);
    assert(!is_space(s[n - 1]));
    assert(space_start(s, n - 1) == n - 1);
    assert(space_start(s, n) == n - 1);
    assert(moved_once(s, n + 1, Motion::WordBack) == 0);
    assert(moved(s, n + 1, Motion::WordBack, 1) == moved(s, 0, Motion::WordBack, 0));
    assert(moved(s, n + 1, Motion::WordBack, 1) == 0);
    assert(stepped(EditorView { cursor: a.len() + 1int, ..e }, Key::Char('b')).0 =~= (EditorView { cursor: 0, ..e }));
}

/// From inside a run without white space that ends at `q` with white space, `word_end` lands
/// on `q`.
proof fn lemma_word_end_run(s: Seq<char>, p: int, q: int)
    requires
        0 <= p <= q < s.len(),
        is_space(s[q]),
        forall|i: int| p <= i < q ==> !is_space(#[trigger] s[i]),
    ensures
        word_end(s, p) == q,
    decreases q - p,
{
    if p < q {
        lemma_word_end_run(s, p + 1, q);
    }
}

/// Past a single space followed by a character that is not one, `space_end` lands on that
/// character.
proof fn lemma_space_end_one(s: Seq<char>, q: int)
    requires
        0 <= q,
        q + 1 < s.len(),
        is_space(s[q]),
        !is_space(s[q + 1]),
    ensures
        space_end(s, q) == q + 1,
{
    assert(space_end(s, q + 1) == q + 1);
}

/// Back from inside a run without white space that starts the text, `word_start` lands on
/// the start.
proof fn lemma_word_start_run(s: Seq<char>, p: int)
    requires
        0 <= p < s.len(),
        forall|i: int| 0 <= i <= p ==> !is_space(#[trigger] s[i]),
    ensures
        word_start(s, p) == 0,
    decreases p,
{
    if p > 0 {
        lemma_word_start_run(s, p - 1);
    }
}

/// Up and down over two lines: with the cursor in the first line and no column kept, down
/// goes to the same column of the second line (or its end), and up from there comes back to
/// where the cursor was; up on the first line and down on the last leave the cursor where it
/// is. The text and the mode never change.
pub proof fn law_up_down(e: EditorView, a: Seq<char>, b: Seq<char>)
    requires
        !a.contains('\n'),
        !b.contains('\n'),
        e.input == a + seq!['\n'] + b,
        0 <= e.cursor <= a.len(),
        e.persis_y == 0,
    ensures
        ({
            let c = e.cursor;
            let d = stepped(e, Key::Down).0;
            let back = stepped(d, Key::Up).0;
            &&& d.input == e.input && d.mode == e.mode
            &&& d.cursor == a.len() + 1 + (if c < b.len() { c } else { b.len() as int })
            &&& back.input == e.input && back.mode == e.mode && back.cursor == c
            &&& stepped(e, Key::Up).0.cursor == c
            &&& stepped(d, Key::Down).0.cursor == d.cursor
        }),
{
    let s = e.input;
    let n = a.len() as int;
    let c = e.cursor;
    assert(s.len() == n + 1 + b.len());
    assert(s[n] == '\n');
    assert forall|i: int| 0 <= i < n implies #[trigger] s[i] != '\n' by {
        assert(s[i] == a[i]);
        assert(!a.contains('\n'));
        if a[i] == '\n' {
            assert(a.contains('\n'));
        }
    }
    assert forall|i: int| n + 1 <= i < s.len() implies #[trigger] s[i] != '\n' by {
        assert(s[i] == b[i - n - 1]);
        if b[i - n - 1] == '\n' {
            assert(b.contains('\n'));
        }
    }
    lemma_newline_before_none(s, c);
    lemma_newline_after_at(s, c, n);
    lemma_newline_after_at(s, n + 1, s.len() as int);
    let t = if c < b.len() { c } else { b.len() as int };
    let q = n + 1 + t;
    lemma_newline_before_at(s, n, q);
    lemma_newline_after_at(s, q, s.len() as int);
    lemma_newline_before_none(s, n);
    lemma_newline_before_at(s, n, s.len() as int);
}

/// No line break below `b`: no line starts before the text does.
proof fn lemma_newline_before_none(s: Seq<char>, b: int)
    requires
        0 <= b <= s.len(),
        forall|i: int| 0 <= i < b ==> #[trigger] s[i] != '\n',
    ensures
        last_newline_before(s, b) == -1,
    decreases b,
{
    if b > 0 {
        lemma_newline_before_none(s, b - 1);
    }
}

/// The last line break below `b` is the one at `q` when none stands between them.
proof fn lemma_newline_before_at(s: Seq<char>, q: int, b: int)
    requires
        0 <= q < b <= s.len(),
        s[q] == '\n',
        forall|i: int| q < i < b ==> #[trigger] s[i] != '\n',
    ensures
        last_newline_before(s, b) == q,
    decreases b,
{
    if b - 1 > q {
        lemma_newline_before_at(s, q, b - 1);
    }
}

/// The first line break at or after `b` is at `q` (or the text ends there) when none stands
/// between them.
proof fn lemma_newline_after_at(s: Seq<char>, b: int, q: int)
    requires
        0 <= b <= q <= s.len(),
        q == s.len() || s[q] == '\n',
        forall|i: int| b <= i < q ==> #[trigger] s[i] != '\n',
    ensures
        next_newline(s, b) == q,
    decreases q - b,
{
    if b < q {
        lemma_newline_after_at(s, b + 1, q);
    }
}

} // verus!
