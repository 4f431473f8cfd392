//! The style policy and the line renderer.
//!
//! A [`CologStyle`] decides, per severity level, which color and which
//! short token to show. The free functions [`prefix_token`],
//! [`line_separator`] and [`format_record`] render a record with a given
//! policy: the first line carries the bracketed, colorized token, and
//! every embedded newline in the message is replaced by an indent that
//! aligns the continuation line under the start of the message text.
use vstd::prelude::*;

verus! {

/// Severity of a log record, from most to least severe.
#[derive(Clone, Copy, Debug, PartialEq, Eq, Structural)]
pub enum Level {
    Error,
    Warn,
    Info,
    Debug,
    Trace,
}

/// Display color requested for a level's token.
#[derive(Clone, Copy, Debug, PartialEq, Eq, Structural)]
pub enum Color {
    Red,
    Yellow,
    Green,
    Blue,
    Cyan,
}

/// The color each level maps to under the default policy.
pub open spec fn default_color(level: Level) -> Color {
    match level {
        Level::Error => Color::Red,
        Level::Warn => Color::Yellow,
        Level::Info => Color::Green,
        Level::Debug => Color::Blue,
        Level::Trace => Color::Cyan,
    }
}

/// The token each level maps to under the default policy: the first
/// letter of the level's name, so all tokens are one column wide.
pub open spec fn default_token(level: Level) -> Seq<char> {
    match level {
        Level::Error => seq!['E'],
        Level::Warn => seq!['W'],
        Level::Info => seq!['I'],
        Level::Debug => seq!['D'],
        Level::Trace => seq!['T'],
    }
}

/// The ANSI sequence that switches the terminal to a color.
pub open spec fn escape_of(c: Color) -> Seq<char> {
    match c {
        Color::Red => seq!['\u{1b}', '[', '3', '1', 'm'],
        Color::Yellow => seq!['\u{1b}', '[', '3', '3', 'm'],
        Color::Green => seq!['\u{1b}', '[', '3', '2', 'm'],
        Color::Blue => seq!['\u{1b}', '[', '3', '4', 'm'],
        Color::Cyan => seq!['\u{1b}', '[', '3', '6', 'm'],
    }
}

/// The ANSI sequence that restores the terminal's default style.
pub open spec fn reset_escape() -> Seq<char> {
    seq!['\u{1b}', '[', '0', 'm']
}

/// The full prefix put before the first line of a record: the token,
/// wrapped in the level's color, inside plain brackets, then one space.
pub open spec fn prefix_of(c: Color, tok: Seq<char>) -> Seq<char> {
    seq!['['] + escape_of(c) + tok + reset_escape() + seq![']', ' ']
}

/// What the prefix looks like once the terminal has consumed the color
/// escapes: the characters that actually occupy columns.
pub open spec fn visible_prefix_of(tok: Seq<char>) -> Seq<char> {
    seq!['['] + tok + seq![']', ' ']
}

/// How many columns the prefix occupies on screen.
pub open spec fn visible_width(tok: Seq<char>) -> nat {
    tok.len() + 3
}

/// `n` space characters.
pub open spec fn spaces(n: nat) -> Seq<char>
    decreases n,
{
    if n == 0 {
        Seq::empty()
    } else {
        spaces((n - 1) as nat).push(' ')
    }
}

/// The string put between two physical lines of one record: a newline,
/// then enough spaces to align the continuation under the message text.
pub open spec fn separator_of(tok: Seq<char>) -> Seq<char> {
    seq!['\n'] + spaces(visible_width(tok))
}

/// The message split at its newline characters, in order. A message
/// without a newline yields one piece; a trailing newline yields one
/// trailing empty piece.
pub open spec fn split_lines(msg: Seq<char>) -> Seq<Seq<char>>
    decreases msg.len(),
{
    if msg.len() == 0 {
        seq![Seq::<char>::empty()]
    } else if msg[0] == '\n' {
        seq![Seq::<char>::empty()] + split_lines(msg.drop_first())
    } else {
        let rest = split_lines(msg.drop_first());
        seq![seq![msg[0]] + rest[0]] + rest.drop_first()
    }
}

/// The pieces joined back together with `sep` between consecutive
/// pieces: `k` pieces carry `k - 1` copies of `sep`.
pub open spec fn join_with(pieces: Seq<Seq<char>>, sep: Seq<char>) -> Seq<char>
    decreases pieces.len(),
{
    if pieces.len() == 0 {
        Seq::empty()
    } else if pieces.len() == 1 {
        pieces[0]
    } else {
        pieces[0] + sep + join_with(pieces.drop_first(), sep)
    }
}

/// The message with every newline character replaced by `sep`; equal to
/// splitting on newlines and joining with `sep`.
pub open spec fn replace_newlines(msg: Seq<char>, sep: Seq<char>) -> Seq<char>
    decreases msg.len(),
{
    if msg.len() == 0 {
        Seq::empty()
    } else if msg[0] == '\n' {
        sep + replace_newlines(msg.drop_first(), sep)
    } else {
        seq![msg[0]] + replace_newlines(msg.drop_first(), sep)
    }
}

/// How many times `c` occurs in `s`.
pub open spec fn count_char(s: Seq<char>, c: char) -> nat
    decreases s.len(),
{
    if s.len() == 0 {
        0
    } else {
        (if s[0] == c {
            1nat
        } else {
            0nat
        }) + count_char(s.drop_first(), c)
    }
}

/// The exact output for one record: the prefix, then the message lines
/// joined with the continuation separator, then one terminating newline.
pub open spec fn rendered(c: Color, tok: Seq<char>, msg: Seq<char>) -> Seq<char> {
    prefix_of(c, tok) + join_with(split_lines(msg), separator_of(tok)) + seq!['\n']
}

/// A style policy: per severity level, which color and which token to
/// show. Implementations state their choices as the two spec functions
/// and return exactly those values from the two methods; the renderer's
/// contract is then exact for any policy.
pub trait CologStyle {
    /// The color this policy requests for a level; by default the
    /// canonical palette.
    open spec fn spec_color(&self, level: Level) -> Color {
        default_color(level)
    }

    /// The token this policy shows for a level; by default the level
    /// name's first letter.
    open spec fn spec_token(&self, level: Level) -> Seq<char> {
        default_token(level)
    }

    /// Returns the display color for `level`.
    fn color_for(&self, level: Level) -> (c: Color)
        ensures
            c == self.spec_color(level),
    ;

    /// Returns the display token for `level`.
    fn token_for(&self, level: Level) -> (t: String)
        ensures
            t@ == self.spec_token(level),
    ;
}

/// The stock policy: one-letter tokens in the canonical palette.
pub struct DefaultCologStyle;

impl CologStyle for DefaultCologStyle {
    fn color_for(&self, level: Level) -> (c: Color) {
        match level {
            Level::Error => Color::Red,
            Level::Warn => Color::Yellow,
            Level::Info => Color::Green,
            Level::Debug => Color::Blue,
            Level::Trace => Color::Cyan,
        }
    }

    fn token_for(&self, level: Level) -> (t: String) {
        proof {
            reveal_strlit("E");
            reveal_strlit("W");
            reveal_strlit("I");
            reveal_strlit("D");
            reveal_strlit("T");
        }
        match level {
            Level::Error => String::from_str("E"),
            Level::Warn => String::from_str("W"),
            Level::Info => String::from_str("I"),
            Level::Debug => String::from_str("D"),
            Level::Trace => String::from_str("T"),
        }
    }
}

/// Returns the ANSI sequence that switches to `c`.
pub fn color_escape(c: Color) -> (r: &'static str)
    ensures
        r@ == escape_of(c),
{
    proof {
        reveal_strlit("\u{1b}[31m");
        reveal_strlit("\u{1b}[33m");
        reveal_strlit("\u{1b}[32m");
        reveal_strlit("\u{1b}[34m");
        reveal_strlit("\u{1b}[36m");
    }
    match c {
        Color::Red => "\u{1b}[31m",
        Color::Yellow => "\u{1b}[33m",
        Color::Green => "\u{1b}[32m",
        Color::Blue => "\u{1b}[34m",
        Color::Cyan => "\u{1b}[36m",
    }
}

/// Returns the ANSI sequence that restores the default style.
pub fn reset_str() -> (r: &'static str)
    ensures
        r@ == reset_escape(),
{
    proof {
        reveal_strlit("\u{1b}[0m");
    }
    "\u{1b}[0m"
}

/// Builds the prefix for one record: the policy's token for `level`,
/// wrapped in the policy's color, inside plain brackets, then a space.
pub fn prefix_token<S: CologStyle>(style: &S, level: Level) -> (p: String)
    ensures
        p@ == prefix_of(style.spec_color(level), style.spec_token(level)),
{
    proof {
        reveal_strlit("[");
        reveal_strlit("] ");
    }
    let mut p = String::new();
    p.append("[");
    p.append(color_escape(style.color_for(level)));
    let tok = style.token_for(level);
    p.append(tok.as_str());
    p.append(reset_str());
    p.append("] ");
    proof {
        assert(p@ =~= prefix_of(style.spec_color(level), style.spec_token(level)));
    }
    p
}

/// Builds the continuation separator for records at `level`: a newline,
/// then one space per visible column of the prefix, so a continuation
/// line starts exactly under the first line's message text.
pub fn line_separator<S: CologStyle>(style: &S, level: Level) -> (s: String)
    ensures
        s@ == separator_of(style.spec_token(level)),
{
    proof {
        reveal_strlit("\n   ");
        reveal_strlit(" ");
    }
    let tok = style.token_for(level);
    let n = tok.as_str().unicode_len();
    let mut s = String::from_str("\n   ");
    proof {
        assert(s@ =~= seq!['\n'] + spaces(3)) by {
            reveal_with_fuel(spaces, 4);
        }
    }
    let mut i: usize = 0;
    while i < n
        invariant
            i <= n,
            n == tok@.len(),
            tok@ == style.spec_token(level),
            s@ == seq!['\n'] + spaces((3 + i) as nat),
        decreases n - i,
    {
        s.append(" ");
        proof {
            reveal_strlit(" ");
            assert(s@ =~= seq!['\n'] + spaces((3 + i + 1) as nat));
        }
        i = i + 1;
    }
    s
}

proof fn lemma_replace_concat(a: Seq<char>, b: Seq<char>, sep: Seq<char>)
    ensures
        replace_newlines(a + b, sep) == replace_newlines(a, sep) + replace_newlines(b, sep),
    decreases a.len(),
{
    if a.len() == 0 {
        assert(a + b =~= b);
        assert(replace_newlines(a, sep) + replace_newlines(b, sep) =~= replace_newlines(
            b,
            sep,
        ));
    } else {
        assert((a + b)[0] == a[0]);
        assert((a + b).drop_first() =~= a.drop_first() + b);
        lemma_replace_concat(a.drop_first(), b, sep);
        if a[0] == '\n' {
            assert(sep + (replace_newlines(a.drop_first(), sep) + replace_newlines(b, sep))
                =~= (sep + replace_newlines(a.drop_first(), sep)) + replace_newlines(b, sep));
        } else {
            assert(seq![a[0]] + (replace_newlines(a.drop_first(), sep) + replace_newlines(b, sep))
                =~= (seq![a[0]] + replace_newlines(a.drop_first(), sep)) + replace_newlines(
                b,
                sep,
            ));
        }
    }
}

proof fn lemma_replace_no_newline(a: Seq<char>, sep: Seq<char>)
    requires
        forall|i: int| 0 <= i < a.len() ==> a[i] != '\n',
    ensures
        replace_newlines(a, sep) == a,
    decreases a.len(),
{
    if a.len() == 0 {
        assert(replace_newlines(a, sep) =~= a);
    } else {
        lemma_replace_no_newline(a.drop_first(), sep);
        assert(seq![a[0]] + a.drop_first() =~= a);
    }
}

proof fn lemma_replace_newline_char(sep: Seq<char>)
    ensures
        replace_newlines(seq!['\n'], sep) == sep,
{
    assert(seq!['\n'].drop_first() =~= Seq::<char>::empty());
    assert(seq!['\n'][0] == '\n');
    assert(replace_newlines(Seq::<char>::empty(), sep) == Seq::<char>::empty());
    assert(replace_newlines(seq!['\n'], sep) == sep + replace_newlines(
        Seq::<char>::empty(),
        sep,
    ));
    assert(sep + Seq::<char>::empty() =~= sep);
}

/// Builds the full output for one record under a policy: the prefix,
/// the message with every embedded newline replaced by the continuation
/// separator, and one terminating newline. An empty message yields the
/// prefix followed by the terminator alone; a trailing newline in the
/// message yields one trailing empty continuation line.
pub fn format_record<S: CologStyle>(style: &S, level: Level, message: &str) -> (out: String)
    ensures
        out@ == rendered(style.spec_color(level), style.spec_token(level), message@),
{
    let ghost c = style.spec_color(level);
    let ghost tok = style.spec_token(level);
    let mut out = prefix_token(style, level);
    let sep = line_separator(style, level);
    let n = message.unicode_len();
    let mut start: usize = 0;
    let mut i: usize = 0;
    while i < n
        invariant
            start <= i <= n,
            n == message@.len(),
            sep@ == separator_of(tok),
            tok == style.spec_token(level),
            c == style.spec_color(level),
            out@ == prefix_of(c, tok) + replace_newlines(
                message@.subrange(0, start as int),
                sep@,
            ),
            forall|j: int| start <= j < i ==> message@[j] != '\n',
        decreases n - i,
    {
        let ch = message.get_char(i);
        if ch == '\n' {
            let piece = message.substring_char(start, i);
            out.append(piece);
            out.append(sep.as_str());
            proof {
                let pre = message@.subrange(0, start as int);
                let mid = message@.subrange(start as int, i as int);
                let upto = message@.subrange(0, i + 1);
                assert(upto =~= pre + mid + seq!['\n']);
                lemma_replace_concat(pre + mid, seq!['\n'], sep@);
                lemma_replace_concat(pre, mid, sep@);
                lemma_replace_no_newline(mid, sep@);
                lemma_replace_newline_char(sep@);
                assert(out@ =~= prefix_of(c, tok) + replace_newlines(upto, sep@));
            }
            start = i + 1;
        }
        i = i + 1;
    }
    let piece = message.substring_char(start, n);
    out.append(piece);
    out.append("\n");
    proof {
        reveal_strlit("\n");
        let pre = message@.subrange(0, start as int);
        let tail = message@.subrange(start as int, n as int);
        assert(message@ =~= pre + tail);
        lemma_replace_concat(pre, tail, sep@);
        lemma_replace_no_newline(tail, sep@);
        lemma_split_join(message@, sep@);
        assert(out@ =~= rendered(c, tok, message@));
    }
    out
}

/// Splitting the message on newlines and joining the pieces with `sep`
/// is the same as replacing each newline with `sep`.
proof fn lemma_split_join(msg: Seq<char>, sep: Seq<char>)
    ensures
        join_with(split_lines(msg), sep) == replace_newlines(msg, sep),
        split_lines(msg).len() >= 1,
    decreases msg.len(),
{
    if msg.len() == 0 {
    } else if msg[0] == '\n' {
        lemma_split_join(msg.drop_first(), sep);
        let pieces = seq![Seq::<char>::empty()] + split_lines(msg.drop_first());
        assert(pieces.len() >= 2);
        assert(pieces[0] =~= Seq::<char>::empty());
        assert(pieces.drop_first() =~= split_lines(msg.drop_first()));
        assert(pieces[0] + sep + join_with(pieces.drop_first(), sep) =~= sep + join_with(
            split_lines(msg.drop_first()),
            sep,
        ));
    } else {
        lemma_split_join(msg.drop_first(), sep);
        let rest = split_lines(msg.drop_first());
        let pieces = seq![seq![msg[0]] + rest[0]] + rest.drop_first();
        assert(pieces.len() == rest.len());
        if rest.len() == 1 {
            assert(join_with(pieces, sep) == pieces[0]);
            assert(join_with(rest, sep) == rest[0]);
            assert(pieces[0] =~= seq![msg[0]] + rest[0]);
        } else {
            assert(pieces.drop_first() =~= rest.drop_first());
            assert(rest[0] + sep + join_with(rest.drop_first(), sep) == join_with(rest, sep));
            assert((seq![msg[0]] + rest[0]) + sep + join_with(rest.drop_first(), sep)
                =~= seq![msg[0]] + join_with(rest, sep));
        }
        assert(join_with(pieces, sep) =~= seq![msg[0]] + replace_newlines(
            msg.drop_first(),
            sep,
        ));
    }
}

/// The default palette assigns the five levels five pairwise-distinct
/// colors, and the default tokens are all non-empty (one column wide).
pub proof fn lemma_default_palette_distinct()
    ensures
        forall|a: Level, b: Level| default_color(a) == default_color(b) ==> a == b,
        forall|l: Level| default_token(l).len() == 1,
{
}

/// A message without a newline renders as the prefix, the message
/// itself and the terminator, with no continuation separator inside.
pub proof fn lemma_single_line(c: Color, tok: Seq<char>, msg: Seq<char>)
    requires
        forall|i: int| 0 <= i < msg.len() ==> msg[i] != '\n',
    ensures
        rendered(c, tok, msg) == prefix_of(c, tok) + msg + seq!['\n'],
{
    lemma_split_join(msg, separator_of(tok));
    lemma_replace_no_newline(msg, separator_of(tok));
}

/// A message with exactly one embedded newline renders as the prefix,
/// the first line, one continuation separator, the second line and the
/// terminator.
pub proof fn lemma_two_lines(c: Color, tok: Seq<char>, first: Seq<char>, second: Seq<char>)
    requires
        forall|i: int| 0 <= i < first.len() ==> first[i] != '\n',
        forall|i: int| 0 <= i < second.len() ==> second[i] != '\n',
    ensures
        rendered(c, tok, first + seq!['\n'] + second) == prefix_of(c, tok) + first
            + separator_of(tok) + second + seq!['\n'],
{
    let sep = separator_of(tok);
    let msg = first + seq!['\n'] + second;
    lemma_split_join(msg, sep);
    lemma_replace_concat(first + seq!['\n'], second, sep);
    lemma_replace_concat(first, seq!['\n'], sep);
    lemma_replace_no_newline(first, sep);
    lemma_replace_no_newline(second, sep);
    lemma_replace_newline_char(sep);
    assert(prefix_of(c, tok) + ((first + sep) + second) + seq!['\n'] =~= prefix_of(c, tok)
        + first + sep + second + seq!['\n']);
}

proof fn lemma_count_concat(a: Seq<char>, b: Seq<char>, c: char)
    ensures
        count_char(a + b, c) == count_char(a, c) + count_char(b, c),
    decreases a.len(),
{
    if a.len() == 0 {
        assert(a + b =~= b);
    } else {
        assert((a + b)[0] == a[0]);
        assert((a + b).drop_first() =~= a.drop_first() + b);
        lemma_count_concat(a.drop_first(), b, c);
    }
}

proof fn lemma_count_none(s: Seq<char>, c: char)
    requires
        forall|i: int| 0 <= i < s.len() ==> s[i] != c,
    ensures
        count_char(s, c) == 0,
    decreases s.len(),
{
    if s.len() > 0 {
        lemma_count_none(s.drop_first(), c);
    }
}

proof fn lemma_count_newline_replace(msg: Seq<char>, sep: Seq<char>)
    requires
        count_char(sep, '\n') == 1,
    ensures
        count_char(replace_newlines(msg, sep), '\n') == count_char(msg, '\n'),
    decreases msg.len(),
{
    if msg.len() == 0 {
    } else {
        lemma_count_newline_replace(msg.drop_first(), sep);
        if msg[0] == '\n' {
            lemma_count_concat(sep, replace_newlines(msg.drop_first(), sep), '\n');
        } else {
            lemma_count_concat(seq![msg[0]], replace_newlines(msg.drop_first(), sep), '\n');
            assert(seq![msg[0]].drop_first() =~= Seq::<char>::empty());
            assert(count_char(Seq::<char>::empty(), '\n') == 0);
            assert(count_char(seq![msg[0]], '\n') == 0);
        }
    }
}

proof fn lemma_spaces_all(n: nat)
    ensures
        spaces(n).len() == n,
        forall|i: int| 0 <= i < n ==> spaces(n)[i] == ' ',
    decreases n,
{
    if n > 0 {
        lemma_spaces_all((n - 1) as nat);
    }
}

proof fn lemma_split_lines_len(msg: Seq<char>)
    ensures
        split_lines(msg).len() == count_char(msg, '\n') + 1,
    decreases msg.len(),
{
    if msg.len() > 0 {
        lemma_split_lines_len(msg.drop_first());
    }
}

proof fn lemma_split_lines_no_newline(msg: Seq<char>)
    ensures
        forall|k: int, i: int|
            0 <= k < split_lines(msg).len() && 0 <= i < split_lines(msg)[k].len()
                ==> split_lines(msg)[k][i] != '\n',
    decreases msg.len(),
{
    if msg.len() == 0 {
    } else if msg[0] == '\n' {
        lemma_split_lines_no_newline(msg.drop_first());
        let rest = split_lines(msg.drop_first());
        let pieces = split_lines(msg);
        assert(pieces == seq![Seq::<char>::empty()] + rest);
        assert forall|k: int, i: int|
            0 <= k < pieces.len() && 0 <= i < pieces[k].len() implies pieces[k][i]
            != '\n' by {
            if k > 0 {
                assert(pieces[k] == rest[k - 1]);
            }
        }
    } else {
        lemma_split_lines_no_newline(msg.drop_first());
        let rest = split_lines(msg.drop_first());
        let pieces = split_lines(msg);
        assert(pieces == seq![seq![msg[0]] + rest[0]] + rest.drop_first());
        assert forall|k: int, i: int|
            0 <= k < pieces.len() && 0 <= i < pieces[k].len() implies pieces[k][i]
            != '\n' by {
            if k == 0 {
                assert(pieces[0] == seq![msg[0]] + rest[0]);
                if i == 0 {
                    assert(pieces[0][0] == msg[0]);
                } else {
                    assert(pieces[0][i] == rest[0][i - 1]);
                }
            } else {
                assert(pieces[k] == rest.drop_first()[k - 1]);
                assert(rest.drop_first()[k - 1] == rest[k]);
            }
        }
    }
}

/// Replacing each newline by a newline changes nothing, so the split
/// lines, joined back with a bare newline, are the message itself: the
/// pieces are the message's own lines, in order.
proof fn lemma_replace_newline_identity(msg: Seq<char>)
    ensures
        replace_newlines(msg, seq!['\n']) == msg,
    decreases msg.len(),
{
    if msg.len() == 0 {
        assert(replace_newlines(msg, seq!['\n']) =~= msg);
    } else {
        lemma_replace_newline_identity(msg.drop_first());
        if msg[0] == '\n' {
            assert(seq!['\n'] + msg.drop_first() =~= msg);
        } else {
            assert(seq![msg[0]] + msg.drop_first() =~= msg);
        }
    }
}

/// The count of `'\n'` in the separator is one: its leading newline.
proof fn lemma_count_separator(tok: Seq<char>)
    ensures
        count_char(separator_of(tok), '\n') == 1,
{
    lemma_spaces_all(visible_width(tok));
    lemma_count_concat(seq!['\n'], spaces(visible_width(tok)), '\n');
    lemma_count_none(spaces(visible_width(tok)), '\n');
    assert(seq!['\n'].drop_first() =~= Seq::<char>::empty());
    assert(count_char(Seq::<char>::empty(), '\n') == 0);
    assert(count_char(seq!['\n'], '\n') == 1);
}

/// For a message with `N` embedded newlines the output carries the
/// continuation separator exactly `N` times — the message splits into
/// `N + 1` lines, none containing a newline and restoring the message
/// in order when rejoined with a bare newline, joined by the separator —
/// and exactly one terminator, at the end: provided the token itself
/// has no newline, the newline characters of the output are the `N`
/// leading ones of the separators plus the final terminator.
pub proof fn lemma_separator_count(c: Color, tok: Seq<char>, msg: Seq<char>)
    requires
        forall|i: int| 0 <= i < tok.len() ==> tok[i] != '\n',
    ensures
        rendered(c, tok, msg) == prefix_of(c, tok) + join_with(
            split_lines(msg),
            separator_of(tok),
        ) + seq!['\n'],
        split_lines(msg).len() == count_char(msg, '\n') + 1,
        forall|k: int, i: int|
            0 <= k < split_lines(msg).len() && 0 <= i < split_lines(msg)[k].len()
                ==> split_lines(msg)[k][i] != '\n',
        join_with(split_lines(msg), seq!['\n']) == msg,
        rendered(c, tok, msg).len() > 0,
        rendered(c, tok, msg).last() == '\n',
        count_char(rendered(c, tok, msg), '\n') == count_char(msg, '\n') + 1,
{
    let sep = separator_of(tok);
    let pre = prefix_of(c, tok);
    lemma_split_lines_len(msg);
    lemma_split_lines_no_newline(msg);
    lemma_split_join(msg, sep);
    lemma_split_join(msg, seq!['\n']);
    lemma_replace_newline_identity(msg);
    lemma_count_separator(tok);
    lemma_count_newline_replace(msg, sep);
    assert forall|i: int| 0 <= i < pre.len() implies pre[i] != '\n' by {
        let esc = escape_of(c);
        assert(pre == seq!['['] + esc + tok + reset_escape() + seq![']', ' ']);
        assert(forall|j: int| 0 <= j < esc.len() ==> esc[j] != '\n');
        assert(forall|j: int| 0 <= j < reset_escape().len() ==> reset_escape()[j] != '\n');
    }
    lemma_count_none(pre, '\n');
    lemma_count_concat(pre, replace_newlines(msg, sep), '\n');
    lemma_count_concat(pre + replace_newlines(msg, sep), seq!['\n'], '\n');
    assert(seq!['\n'].drop_first() =~= Seq::<char>::empty());
    assert(count_char(Seq::<char>::empty(), '\n') == 0);
    assert(count_char(seq!['\n'], '\n') == 1);
}

/// Formatting is deterministic: two outputs of the same record under
/// the same policy are identical.
pub proof fn lemma_format_deterministic(
    c: Color,
    tok: Seq<char>,
    msg: Seq<char>,
    out1: Seq<char>,
    out2: Seq<char>,
)
    requires
        out1 == rendered(c, tok, msg),
        out2 == rendered(c, tok, msg),
    ensures
        out1 == out2,
{
}

/// The continuation indent is derived from the token's width, not
/// hardcoded: after its leading newline the separator holds exactly one
/// space per visible column of the prefix, whatever the token's length.
pub proof fn lemma_separator_width(tok: Seq<char>)
    ensures
        separator_of(tok).len() == 1 + visible_prefix_of(tok).len(),
        separator_of(tok)[0] == '\n',
        forall|i: int| 1 <= i < separator_of(tok).len() ==> separator_of(tok)[i] == ' ',
        visible_prefix_of(tok).len() == visible_width(tok),
{
    lemma_spaces_all(visible_width(tok));
}

} // verus!
