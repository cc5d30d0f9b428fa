//! How deep a TOML text can nest, told from its characters alone.
//!
//! The scan follows the text as a TOML tokenizer does, so that it knows
//! which characters stand inside a string or a comment, and counts what can
//! open a level outside of those: a bracket or a brace, and the period of a
//! dotted key. The count is taken before the text is handed to the parser:
//! the parser goes one call deeper with each level, and a text that nests
//! too deep is refused here with a typed error.

use vstd::prelude::*;
use crate::text::chars_of;

verus! {

/// Where the scan stands in the text.
#[derive(Clone, Copy, Debug, PartialEq, Eq, Structural)]
pub enum Mode {
    /// Outside of strings and comments.
    Normal,
    /// In a comment, up to the end of the line.
    Comment,
    /// After the quote that opens a basic string.
    BasicOpen1,
    /// After two quotes: an empty string, or the start of a multi-line one.
    BasicOpen2,
    /// In a basic string.
    Basic,
    /// After a backslash in a basic string.
    BasicEscape,
    /// In a multi-line basic string.
    MlBasic,
    /// After a backslash in a multi-line basic string.
    MlBasicEscape,
    /// After one quote in a multi-line basic string.
    MlBasicQ1,
    /// After two quotes in a row in a multi-line basic string.
    MlBasicQ2,
    /// After the three quotes that close a multi-line basic string.
    MlBasicEnd0,
    /// After the closing quotes and one quote more.
    MlBasicEnd1,
    /// After the apostrophe that opens a literal string.
    LitOpen1,
    /// After two apostrophes.
    LitOpen2,
    /// In a literal string.
    Literal,
    /// In a multi-line literal string.
    MlLit,
    /// After one apostrophe in a multi-line literal string.
    MlLitQ1,
    /// After two apostrophes in a row in a multi-line literal string.
    MlLitQ2,
    /// After the three apostrophes that close a multi-line literal string.
    MlLitEnd0,
    /// After the closing apostrophes and one apostrophe more.
    MlLitEnd1,
}

/// Whether a comment goes on over `c`: over a tab and over every character
/// that is no control character.
pub open spec fn in_comment(c: char) -> bool {
    c == '\t' || c as u32 >= 0x20
}

/// Where the scan stands after `c`, met outside of strings and comments.
pub open spec fn after_plain(c: char) -> Mode {
    if c == '#' {
        Mode::Comment
    } else if c == '"' {
        Mode::BasicOpen1
    } else if c == '\'' {
        Mode::LitOpen1
    } else {
        Mode::Normal
    }
}

/// Where the scan stands after `c`, met in a basic string.
pub open spec fn after_basic(c: char) -> Mode {
    if c == '"' {
        Mode::Normal
    } else if c == '\\' {
        Mode::BasicEscape
    } else {
        Mode::Basic
    }
}

/// Where the scan stands after `c`, met in a multi-line basic string.
pub open spec fn after_ml_basic(c: char) -> Mode {
    if c == '"' {
        Mode::MlBasicQ1
    } else if c == '\\' {
        Mode::MlBasicEscape
    } else {
        Mode::MlBasic
    }
}

/// Whether `c`, met in the mode `mode`, stands outside of strings and
/// comments.
pub open spec fn is_live(mode: Mode, c: char) -> bool {
    match mode {
        Mode::Normal => true,
        Mode::Comment => !in_comment(c),
        Mode::BasicOpen2 | Mode::MlBasicEnd0 | Mode::MlBasicEnd1 => c != '"',
        Mode::LitOpen2 | Mode::MlLitEnd0 | Mode::MlLitEnd1 => c != '\'',
        _ => false,
    }
}

/// Where the scan stands after `c`, met in the mode `mode`.
pub open spec fn next_mode(mode: Mode, c: char) -> Mode {
    match mode {
        Mode::Normal => after_plain(c),
        Mode::Comment => if in_comment(c) {
            Mode::Comment
        } else {
            after_plain(c)
        },
        Mode::BasicOpen1 => if c == '"' {
            Mode::BasicOpen2
        } else {
            after_basic(c)
        },
        Mode::BasicOpen2 => if c == '"' {
            Mode::MlBasic
        } else {
            after_plain(c)
        },
        Mode::Basic => after_basic(c),
        Mode::BasicEscape => Mode::Basic,
        Mode::MlBasic => after_ml_basic(c),
        Mode::MlBasicEscape => Mode::MlBasic,
        Mode::MlBasicQ1 => if c == '"' {
            Mode::MlBasicQ2
        } else {
            after_ml_basic(c)
        },
        Mode::MlBasicQ2 => if c == '"' {
            Mode::MlBasicEnd0
        } else {
            after_ml_basic(c)
        },
        Mode::MlBasicEnd0 => if c == '"' {
            Mode::MlBasicEnd1
        } else {
            after_plain(c)
        },
        Mode::MlBasicEnd1 => if c == '"' {
            Mode::Normal
        } else {
            after_plain(c)
        },
        Mode::LitOpen1 => if c == '\'' {
            Mode::LitOpen2
        } else {
            Mode::Literal
        },
        Mode::LitOpen2 => if c == '\'' {
            Mode::MlLit
        } else {
            after_plain(c)
        },
        Mode::Literal => if c == '\'' {
            Mode::Normal
        } else {
            Mode::Literal
        },
        Mode::MlLit => if c == '\'' {
            Mode::MlLitQ1
        } else {
            Mode::MlLit
        },
        Mode::MlLitQ1 => if c == '\'' {
            Mode::MlLitQ2
        } else {
            Mode::MlLit
        },
        Mode::MlLitQ2 => if c == '\'' {
            Mode::MlLitEnd0
        } else {
            Mode::MlLit
        },
        Mode::MlLitEnd0 => if c == '\'' {
            Mode::MlLitEnd1
        } else {
            after_plain(c)
        },
        Mode::MlLitEnd1 => if c == '\'' {
            Mode::Normal
        } else {
            after_plain(c)
        },
    }
}

/// What the scan knows after a part of the text.
///
/// `base` counts the levels that are open: one for each bracket or brace,
/// and one for each period that stood before it in its own level. `dots`
/// counts the periods met in the innermost level since its last comma or,
/// outside of all brackets, since the start of the line. `open` holds, for
/// each open bracket or brace, the two counts as they stood before it.
pub struct Scan {
    pub mode: Mode,
    pub open: Seq<(nat, nat)>,
    pub base: nat,
    pub dots: nat,
}

impl Scan {
    /// The levels that the text may stand in at this point.
    pub open spec fn load(self) -> nat {
        self.base + self.dots
    }
}

/// The counts after `c`, met outside of strings and comments.
pub open spec fn count_step(s: Scan, c: char) -> Scan {
    if c == '[' || c == '{' {
        Scan { open: s.open.push((s.base, s.dots)), base: s.base + s.dots + 1, dots: 0, ..s }
    } else if c == ']' || c == '}' {
        if s.open.len() > 0 {
            Scan { open: s.open.drop_last(), base: s.open.last().0, dots: s.open.last().1, ..s }
        } else {
            s
        }
    } else if c == '.' {
        Scan { dots: s.dots + 1, ..s }
    } else if c == ',' {
        Scan { dots: 0, ..s }
    } else if c == '\n' && s.open.len() == 0 {
        Scan { dots: 0, ..s }
    } else {
        s
    }
}

/// The scan after one more character.
pub open spec fn scan_step(s: Scan, c: char) -> Scan {
    let counted = if is_live(s.mode, c) {
        count_step(s, c)
    } else {
        s
    };
    Scan { mode: next_mode(s.mode, c), ..counted }
}

/// The scan after the whole of `text`.
pub open spec fn scan_of(text: Seq<char>) -> Scan
    decreases text.len(),
{
    if text.len() == 0 {
        Scan { mode: Mode::Normal, open: Seq::empty(), base: 0, dots: 0 }
    } else {
        scan_step(scan_of(text.drop_last()), text.last())
    }
}

/// The nesting of a text: the greatest load that the scan meets on its way
/// through it.
pub open spec fn text_nesting(text: Seq<char>) -> nat
    decreases text.len(),
{
    if text.len() == 0 {
        0
    } else {
        let before = text_nesting(text.drop_last());
        let here = scan_of(text).load();
        if here > before {
            here
        } else {
            before
        }
    }
}

/// A text nests at least as deep as each of its beginnings.
pub proof fn lemma_nesting_grows(text: Seq<char>, k: int)
    requires
        0 <= k <= text.len(),
    ensures
        text_nesting(text.take(k)) <= text_nesting(text),
    decreases text.len(),
{
    if k == text.len() {
        assert(text.take(k) =~= text);
    } else {
        assert(text.drop_last().take(k) =~= text.take(k));
        lemma_nesting_grows(text.drop_last(), k);
    }
}

/// Where the scan stands after `c`, met in the mode `mode`.
pub fn advance(mode: Mode, c: char) -> (next: Mode)
    ensures
        next == next_mode(mode, c),
{
    let plain = if c == '#' {
        Mode::Comment
    } else if c == '"' {
        Mode::BasicOpen1
    } else if c == '\'' {
        Mode::LitOpen1
    } else {
        Mode::Normal
    };
    let basic = if c == '"' {
        Mode::Normal
    } else if c == '\\' {
        Mode::BasicEscape
    } else {
        Mode::Basic
    };
    let ml_basic = if c == '"' {
        Mode::MlBasicQ1
    } else if c == '\\' {
        Mode::MlBasicEscape
    } else {
        Mode::MlBasic
    };
    let quote = c == '"';
    let tick = c == '\'';
    match mode {
        Mode::Normal => plain,
        Mode::Comment => if c == '\t' || c as u32 >= 0x20 {
            Mode::Comment
        } else {
            plain
        },
        Mode::BasicOpen1 => if quote {
            Mode::BasicOpen2
        } else {
            basic
        },
        Mode::BasicOpen2 => if quote {
            Mode::MlBasic
        } else {
            plain
        },
        Mode::Basic => basic,
        Mode::BasicEscape => Mode::Basic,
        Mode::MlBasic => ml_basic,
        Mode::MlBasicEscape => Mode::MlBasic,
        Mode::MlBasicQ1 => if quote {
            Mode::MlBasicQ2
        } else {
            ml_basic
        },
        Mode::MlBasicQ2 => if quote {
            Mode::MlBasicEnd0
        } else {
            ml_basic
        },
        Mode::MlBasicEnd0 => if quote {
            Mode::MlBasicEnd1
        } else {
            plain
        },
        Mode::MlBasicEnd1 => if quote {
            Mode::Normal
        } else {
            plain
        },
        Mode::LitOpen1 => if tick {
            Mode::LitOpen2
        } else {
            Mode::Literal
        },
        Mode::LitOpen2 => if tick {
            Mode::MlLit
        } else {
            plain
        },
        Mode::Literal => if tick {
            Mode::Normal
        } else {
            Mode::Literal
        },
        Mode::MlLit => if tick {
            Mode::MlLitQ1
        } else {
            Mode::MlLit
        },
        Mode::MlLitQ1 => if tick {
            Mode::MlLitQ2
        } else {
            Mode::MlLit
        },
        Mode::MlLitQ2 => if tick {
            Mode::MlLitEnd0
        } else {
            Mode::MlLit
        },
        Mode::MlLitEnd0 => if tick {
            Mode::MlLitEnd1
        } else {
            plain
        },
        Mode::MlLitEnd1 => if tick {
            Mode::Normal
        } else {
            plain
        },
    }
}

/// Whether `c`, met in the mode `mode`, stands outside of strings and
/// comments.
pub fn counts(mode: Mode, c: char) -> (live: bool)
    ensures
        live == is_live(mode, c),
{
    match mode {
        Mode::Normal => true,
        Mode::Comment => !(c == '\t' || c as u32 >= 0x20),
        Mode::BasicOpen2 => c != '"',
        Mode::MlBasicEnd0 => c != '"',
        Mode::MlBasicEnd1 => c != '"',
        Mode::LitOpen2 => c != '\'',
        Mode::MlLitEnd0 => c != '\'',
        Mode::MlLitEnd1 => c != '\'',
        _ => false,
    }
}

/// The counts that a stack of the scan holds, as numbers.
pub open spec fn open_view(open: Seq<(usize, usize)>) -> Seq<(nat, nat)> {
    Seq::new(open.len(), |k: int| (open[k].0 as nat, open[k].1 as nat))
}

/// Whether `text` nests no deeper than `limit`. Stops at the first
/// character that takes the text deeper.
pub fn nesting_within(text: &str, limit: usize) -> (within: bool)
    ensures
        within == (text_nesting(text@) <= limit),
{
    let chars = chars_of(text);
    let mut mode = Mode::Normal;
    let mut open: Vec<(usize, usize)> = Vec::new();
    let mut base: usize = 0;
    let mut dots: usize = 0;
    let mut i: usize = 0;
    proof {
        assert(text@.take(0) =~= Seq::<char>::empty());
        assert(open_view(open@) =~= Seq::<(nat, nat)>::empty());
    }
    while i < chars.len()
        invariant
            i <= chars.len(),
            chars@ == text@,
            scan_of(text@.take(i as int)) == (Scan {
                mode,
                open: open_view(open@),
                base: base as nat,
                dots: dots as nat,
            }),
            text_nesting(text@.take(i as int)) <= limit,
            base + dots <= limit,
            forall|k: int| 0 <= k < open@.len() ==> (#[trigger] open@[k]).0 + open@[k].1 <= limit,
        decreases chars.len() - i,
    {
        let c = chars[i];
        let ghost before = scan_of(text@.take(i as int));
        proof {
            assert(text@.take(i + 1).drop_last() =~= text@.take(i as int));
            assert(text@.take(i + 1).last() == c);
            lemma_nesting_grows(text@, i + 1);
        }
        if counts(mode, c) {
            if c == '[' || c == '{' {
                if base + dots >= limit {
                    return false;
                }
                proof {
                    assert(open_view(open@.push((base, dots))) =~= open_view(open@).push(
                        (base as nat, dots as nat),
                    ));
                }
                open.push((base, dots));
                base = base + dots + 1;
                dots = 0;
            } else if c == ']' || c == '}' {
                if open.len() > 0 {
                    proof {
                        assert(open_view(open@.drop_last()) =~= open_view(open@).drop_last());
                        assert(open_view(open@).last() == (
                            open@.last().0 as nat,
                            open@.last().1 as nat,
                        ));
                    }
                    let (b, d) = open.pop().unwrap();
                    base = b;
                    dots = d;
                }
            } else if c == '.' {
                if base + dots >= limit {
                    return false;
                }
                dots = dots + 1;
            } else if c == ',' {
                dots = 0;
            } else if c == '\n' && open.len() == 0 {
                dots = 0;
            }
        }
        mode = advance(mode, c);
        i += 1;
    }
    proof {
        assert(text@.take(i as int) =~= text@);
    }
    true
}

} // verus!
