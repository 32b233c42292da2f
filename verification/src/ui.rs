use vstd::prelude::*;

use crate::text::join3;

verus! {

/// When to colour the output.
#[derive(Clone, Copy, PartialEq, Eq, Structural, Debug)]
pub enum ColorMode {
    Auto,
    Always,
    Never,
}

/// How the command line talks: in colour or not, as JSON or as text, to a
/// terminal or not.
pub struct Ui {
    pub color: bool,
    pub json: bool,
    pub interactive: bool,
}

/// The ANSI escape that starts a style.
pub open spec fn style_start(code: Seq<char>) -> Seq<char> {
    "\x1b["@ + code + "m"@
}

/// The ANSI escape that resets the style.
pub open spec fn style_reset() -> Seq<char> {
    "\x1b[0m"@
}

/// The rule under the header.
pub const RULE: &'static str = "────────────────────────────────────────";

impl Ui {
    /// The settings `Ui::new` makes: colour only for text output, and with
    /// `auto` only on a terminal.
    pub open spec fn configured(color_mode: ColorMode, json: bool, interactive: bool) -> Ui {
        Ui {
            color: !json && match color_mode {
                ColorMode::Auto => interactive,
                ColorMode::Always => true,
                ColorMode::Never => false,
            },
            json,
            interactive,
        }
    }

    /// `Ui::new`: colour only for text output, and with `auto` only on a
    /// terminal.
    pub fn new(color_mode: ColorMode, json: bool, interactive: bool) -> (r: Ui)
        ensures
            r == Ui::configured(color_mode, json, interactive),
    {
        let wanted = match color_mode {
            ColorMode::Auto => interactive,
            ColorMode::Always => true,
            ColorMode::Never => false,
        };
        Ui { color: !json && wanted, json, interactive }
    }

    /// The text as `paint` shows it.
    pub open spec fn painted(&self, code: Seq<char>, text: Seq<char>) -> Seq<char> {
        if self.color {
            style_start(code) + text + style_reset()
        } else {
            text
        }
    }

    /// `Ui::paint`: the text in the style of the ANSI code, when colour is on.
    pub fn paint(&self, code: &str, text: &str) -> (r: String)
        ensures
            r@ == self.painted(code@, text@),
    {
        if self.color {
            let mut s = join3("\x1b[", code, "m");
            s.append(text);
            s.append("\x1b[0m");
            s
        } else {
            String::from_str(text)
        }
    }

    /// The lines of `Ui::header`: the banner, the rule and the title, shown
    /// only for text output on a terminal.
    pub open spec fn header_lines_spec(&self, title: Seq<char>) -> Seq<Seq<char>> {
        if !self.json && self.interactive {
            seq![
                self.painted("1;38;5;110"@, "ASTRAY VERIFY"@) + "  "@ + self.painted("2"@, "MCP CONTRACTS"@),
                self.painted("2"@, RULE@),
                self.painted("1"@, title),
            ]
        } else {
            Seq::empty()
        }
    }

    /// The lines of `Ui::header`.
    pub fn header_lines(&self, title: &str) -> (r: Vec<String>)
        ensures
            r@.map_values(|s: String| s@) == self.header_lines_spec(title@),
    {
        let mut lines = Vec::new();
        if !self.json && self.interactive {
            let mut banner = self.paint("1;38;5;110", "ASTRAY VERIFY");
            banner.append("  ");
            let second = self.paint("2", "MCP CONTRACTS");
            banner.append(second.as_str());
            lines.push(banner);
            lines.push(self.paint("2", RULE));
            lines.push(self.paint("1", title));
        }
        proof {
            assert(lines@.map_values(|s: String| s@) =~= self.header_lines_spec(title@));
        }
        lines
    }

    /// A marked line: the painted marker, a space and the text; none for
    /// JSON output.
    fn marked(&self, code: &str, marker: &str, text: &str) -> (r: Option<String>)
        ensures
            match r {
                Some(line) => !self.json && line@ == self.painted(code@, marker@) + " "@ + text@,
                None => self.json,
            },
    {
        if self.json {
            return None;
        }
        let mut line = self.paint(code, marker);
        line.append(" ");
        line.append(text);
        Some(line)
    }

    /// The line of `Ui::step`.
    pub fn step_line(&self, text: &str) -> (r: Option<String>)
        ensures
            match r {
                Some(line) => !self.json && line@ == self.painted("38;5;110"@, "●"@) + " "@ + text@,
                None => self.json,
            },
    {
        self.marked("38;5;110", "●", text)
    }

    /// The line of `Ui::success`.
    pub fn success_line(&self, text: &str) -> (r: Option<String>)
        ensures
            match r {
                Some(line) => !self.json && line@ == self.painted("1;32"@, "✓"@) + " "@ + text@,
                None => self.json,
            },
    {
        self.marked("1;32", "✓", text)
    }

    /// The line of `Ui::failure` (and of `Ui::error`, which goes to stderr).
    pub fn failure_line(&self, text: &str) -> (r: Option<String>)
        ensures
            match r {
                Some(line) => !self.json && line@ == self.painted("1;31"@, "✗"@) + " "@ + text@,
                None => self.json,
            },
    {
        self.marked("1;31", "✗", text)
    }

    /// The line of `Ui::detail`: indented, the label dimmed.
    pub fn detail_line(&self, label: &str, value: &str) -> (r: Option<String>)
        ensures
            match r {
                Some(line) => !self.json && line@ == "  "@ + self.painted("2"@, label@) + " "@
                    + value@,
                None => self.json,
            },
    {
        if self.json {
            return None;
        }
        let mut line = String::from_str("  ");
        let label = self.paint("2", label);
        line.append(label.as_str());
        line.append(" ");
        line.append(value);
        Some(line)
    }
}

/// Output that does not go to a terminal stays plain: with `auto` colour (or
/// `never`), no text is painted with an escape and no header is shown.
pub proof fn lemma_redirected_output_is_plain(
    color_mode: ColorMode,
    json: bool,
    code: Seq<char>,
    text: Seq<char>,
    title: Seq<char>,
)
    requires
        color_mode != ColorMode::Always,
    ensures
        Ui::configured(color_mode, json, false).painted(code, text) == text,
        Ui::configured(color_mode, json, false).header_lines_spec(title) == Seq::<Seq<char>>::empty(),
{
}

} // verus!
