//! Worksheet cell values: the text a stored cell shows.
use super::decimal::{finite_number_spec, is_finite_number};
use super::format::{display, display_spec};
use super::{rich_text, rich_text_spec, unsigned, unsigned_spec, Budget, MAX_CELLS, MAX_TEXT};
use crate::error::Error;
use crate::model::{texts, warn, warned};
use crate::spreadsheet::Cell;
use crate::text::{str_eq, utf8};
use crate::xml::{attr_spec, child_spec, Node};
use vstd::prelude::*;
use vstd::string::StringExecFns;
use vstd::string::StringSliceAdditionalSpecFns;

verus! {

/// What the cells of a workbook read: the number format code of each cell
/// style, the shared strings, the date system and the running totals.
pub struct Workbook {
    pub formats: Vec<Option<String>>,
    pub strings: Vec<String>,
    pub date1904: bool,
    pub budget: Budget,
}

/// The format codes of a workbook's styles as characters.
pub open spec fn format_codes(formats: Seq<Option<String>>) -> Seq<Option<Seq<char>>> {
    formats.map_values(
        |f: Option<String>|
            match f {
                Some(s) => Some(s@),
                None => None,
            },
    )
}

/// A style reference: empty gives the fallback; it must name a style.
pub open spec fn style_index_spec(value: Seq<char>, fallback: u32, styles: nat) -> Result<u32, Error> {
    let index = if value.len() == 0 {
        Ok(fallback)
    } else {
        unsigned_spec(utf8(value))
    };
    match index {
        Err(e) => Err(e),
        Ok(i) => if i >= styles {
            Err(Error::Invalid("Invalid XLSX cell style reference"))
        } else {
            Ok(i)
        },
    }
}

/// What a cell shows, without the workbook totals: its text, whether it is a
/// number, and the warning it raises, if any.
pub struct Content {
    pub text: Seq<char>,
    pub numeric: bool,
    pub warning: Option<Seq<char>>,
}

/// The text of a cell node of style `style`; `text` and `numeric` are what
/// the cell held before.
pub open spec fn content_spec(
    formats: Seq<Option<Seq<char>>>,
    strings: Seq<Seq<char>>,
    date1904: bool,
    node: Node,
    style: u32,
    text: Seq<char>,
    numeric: bool,
) -> Result<Content, Error> {
    let kind = attr_spec(node, "t"@);
    let raw = match child_spec(node, "v"@) {
        Some(v) => v.text@,
        None => Seq::<char>::empty(),
    };
    let unevaluated = match child_spec(node, "f"@) {
        None => false,
        Some(f) => match child_spec(node, "v"@) {
            None => true,
            Some(v) => v.text@.len() == 0 && kind != "str"@,
        },
    };
    if unevaluated {
        let f = child_spec(node, "f"@)->Some_0;
        Ok(
            Content {
                text: if f.text@.len() == 0 {
                    "[Formula result unavailable]"@
                } else {
                    seq!['='] + f.text@
                },
                numeric,
                warning: Some("Formula without a cached result is shown without evaluation"@),
            },
        )
    } else if kind == "inlineStr"@ {
            Ok(
                Content {
                    text: match child_spec(node, "is"@) {
                        Some(is) => rich_text_spec(is.children@),
                        None => Seq::<char>::empty(),
                    },
                    numeric,
                    warning: None,
                },
            )
        } else if kind == "s"@ {
            match unsigned_spec(utf8(raw)) {
                Err(e) => Err(e),
                Ok(i) => if i < strings.len() {
                    Ok(Content { text: strings[i as int], numeric, warning: None })
                } else {
                    Err(Error::Invalid("Invalid shared string index"))
                },
            }
        } else if kind == "b"@ {
            if raw == "1"@ {
                Ok(Content { text: "TRUE"@, numeric, warning: None })
            } else if raw == "0"@ {
                Ok(Content { text: "FALSE"@, numeric, warning: None })
            } else {
                Err(Error::Invalid("Invalid XLSX boolean cell"))
            }
        } else if kind == "str"@ || kind == "e"@ {
            Ok(Content { text: raw, numeric, warning: None })
        } else if kind == "d"@ {
            Ok(
                Content {
                    text: raw,
                    numeric,
                    warning: Some(
                        "ISO date cells are displayed as stored without number formatting"@,
                    ),
                },
            )
        } else if kind.len() == 0 || kind == "n"@ {
            if raw.len() == 0 {
                Ok(Content { text, numeric, warning: None })
            } else if !finite_number_spec(utf8(raw)) {
                Err(Error::Invalid("Invalid XLSX numeric cell"))
            } else {
                let shown = match formats[style as int] {
                    Some(code) => display_spec(raw, code, date1904),
                    None => None,
                };
                match shown {
                    Some(t) => Ok(Content { text: t, numeric: true, warning: None }),
                    None => Ok(
                        Content {
                            text: raw,
                            numeric: true,
                            warning: Some(
                                "Unsupported number format or precision; raw numeric value retained"@,
                            ),
                        },
                    ),
                }
            }
    } else {
        Err(Error::Invalid("Unsupported XLSX cell type"))
    }
}

/// A warning list after an optional warning.
pub open spec fn warned_opt(before: Seq<Seq<char>>, w: Option<Seq<char>>) -> Seq<Seq<char>> {
    match w {
        Some(m) => warned(before, m),
        None => before,
    }
}

impl Workbook {
    /// The style a cell or row refers to: `fallback` when the reference is
    /// empty; it must name one of the workbook's styles.
    pub fn style_index(&self, value: &str, fallback: u32) -> (r: Result<u32, Error>)
        ensures
            r == style_index_spec(value@, fallback, self.formats@.len()),
    {
        let index = if value.as_bytes().len() == 0 {
            proof {
                crate::text::lemma_empty_bytes(value);
            }
            fallback
        } else {
            proof {
                crate::text::lemma_empty_bytes(value);
            }
            unsigned(value)?
        };
        if index as usize >= self.formats.len() {
            return Err(Error::Invalid("Invalid XLSX cell style reference"));
        }
        Ok(index)
    }

    /// Reads a stored cell: counts it, resolves its style, and sets its
    /// text (shared string, inline string, boolean, error, stored date, or a
    /// number shown in the style's format); a formula without a cached
    /// result shows the formula. The text counts against the text budget.
    pub fn cell(&mut self, node: &Node, cell: Cell, warnings: &mut Vec<String>) -> (r: Result<Cell, Error>)
        ensures
            final(self).budget.merges == old(self).budget.merges,
            final(self).formats == old(self).formats,
            final(self).strings == old(self).strings,
            final(self).date1904 == old(self).date1904,
            old(self).budget.cells + 1 > MAX_CELLS ==> r == Err::<Cell, Error>(
                Error::Limit("XLSX exceeds 50000 stored cells"),
            ) && texts(final(warnings)@) == texts(old(warnings)@),
            old(self).budget.cells + 1 <= MAX_CELLS ==> match style_index_spec(
                attr_spec(*node, "s"@),
                cell.style,
                old(self).formats@.len(),
            ) {
                Err(e) => r == Err::<Cell, Error>(e) && texts(final(warnings)@) == texts(
                    old(warnings)@,
                ),
                Ok(style) => match content_spec(
                    format_codes(old(self).formats@),
                    texts(old(self).strings@),
                    old(self).date1904,
                    *node,
                    style,
                    cell.text@,
                    cell.numeric,
                ) {
                    Err(e) => r == Err::<Cell, Error>(e) && texts(final(warnings)@) == texts(
                        old(warnings)@,
                    ),
                    Ok(c) => texts(final(warnings)@) == warned_opt(texts(old(warnings)@), c.warning)
                        && if old(self).budget.text + utf8(c.text).len() > MAX_TEXT {
                        r == Err::<Cell, Error>(Error::Limit("XLSX text exceeds 8 MiB"))
                    } else {
                        r matches Ok(out) && out.row == cell.row && out.column == cell.column
                            && out.style == style && out.text@ == c.text && out.numeric
                            == c.numeric
                    },
                },
            },
    {
        let mut cell = cell;
        self.budget.cell()?;
        cell.style = self.style_index(node.attr("s"), cell.style)?;
        let (text, numeric) = self.content(node, cell.style, cell.text, cell.numeric, warnings)?;
        cell.text = text;
        cell.numeric = numeric;
        self.budget.text(cell.text.as_str())?;
        Ok(cell)
    }

    /// The text and number flag of a cell node of style `style` (see
    /// `content_spec`), recording its warning.
    #[verifier::rlimit(40)]
    fn content(&self, node: &Node, style: u32, text: String, numeric: bool, warnings: &mut Vec<String>) -> (r: Result<(String, bool), Error>)
        requires
            style < self.formats@.len(),
        ensures
            match content_spec(
                format_codes(self.formats@),
                texts(self.strings@),
                self.date1904,
                *node,
                style,
                text@,
                numeric,
            ) {
                Err(e) => r == Err::<(String, bool), Error>(e) && texts(final(warnings)@) == texts(
                    old(warnings)@,
                ),
                Ok(c) => r matches Ok((t, n)) && t@ == c.text && n == c.numeric && texts(
                    final(warnings)@,
                ) == warned_opt(texts(old(warnings)@), c.warning),
            },
    {
        let kind = node.attr("t");
        let value = node.child("v");
        if let Some(shown) = formula_text(node, kind) {
            warn(warnings, "Formula without a cached result is shown without evaluation");
            return Ok((shown, numeric));
        }
        let raw: &str = match value {
            Some(v) => v.text.as_str(),
            None => "",
        };
        proof {
            reveal_strlit("");
            crate::text::lemma_empty_bytes(raw);
            crate::text::lemma_empty_bytes(kind);
            reveal_strlit("inlineStr");
            reveal_strlit("s");
            reveal_strlit("b");
            reveal_strlit("e");
            reveal_strlit("d");
            reveal_strlit("n");
            reveal_strlit("str");
        }
        if str_eq(kind, "inlineStr") {
            let t = match node.child("is") {
                Some(is) => rich_text(is),
                None => String::new(),
            };
            Ok((t, numeric))
        } else if str_eq(kind, "s") {
            let index = unsigned(raw)?;
            if (index as usize) < self.strings.len() {
                Ok((self.strings[index as usize].clone(), numeric))
            } else {
                Err(Error::Invalid("Invalid shared string index"))
            }
        } else if str_eq(kind, "b") {
            proof {
                reveal_strlit("1");
                reveal_strlit("0");
            }
            if str_eq(raw, "1") {
                Ok(("TRUE".to_owned(), numeric))
            } else if str_eq(raw, "0") {
                Ok(("FALSE".to_owned(), numeric))
            } else {
                Err(Error::Invalid("Invalid XLSX boolean cell"))
            }
        } else if str_eq(kind, "str") || str_eq(kind, "e") {
            Ok((raw.to_owned(), numeric))
        } else if str_eq(kind, "d") {
            warn(warnings, "ISO date cells are displayed as stored without number formatting");
            Ok((raw.to_owned(), numeric))
        } else if kind.as_bytes().len() == 0 || str_eq(kind, "n") {
            if raw.as_bytes().len() == 0 {
                return Ok((text, numeric));
            }
            if !is_finite_number(raw) {
                return Err(Error::Invalid("Invalid XLSX numeric cell"));
            }
            let shown = match &self.formats[style as usize] {
                Some(code) => display(raw, code.as_str(), self.date1904),
                None => None,
            };
            match shown {
                Some(t) => Ok((t, true)),
                None => {
                    warn(warnings, "Unsupported number format or precision; raw numeric value retained");
                    Ok((raw.to_owned(), true))
                },
            }
        } else {
            Err(Error::Invalid("Unsupported XLSX cell type"))
        }
    }
}

/// The text a formula cell without a cached result shows: the formula after
/// `=`, or a note when the formula is empty.
fn formula_text(node: &Node, kind: &str) -> (r: Option<String>)
    requires
        kind@ == attr_spec(*node, "t"@),
    ensures
        ({
            let unevaluated = match child_spec(*node, "f"@) {
                None => false,
                Some(f) => match child_spec(*node, "v"@) {
                    None => true,
                    Some(v) => v.text@.len() == 0 && kind@ != "str"@,
                },
            };
            if unevaluated {
                let f = child_spec(*node, "f"@)->Some_0;
                r matches Some(t) && t@ == if f.text@.len() == 0 {
                    "[Formula result unavailable]"@
                } else {
                    seq!['='] + f.text@
                }
            } else {
                r is None
            }
        }),
{
    let f = match node.child("f") {
        Some(f) => f,
        None => return None,
    };
    let missing = match node.child("v") {
        None => true,
        Some(v) => {
            let t = v.text.as_str();
            proof {
                crate::text::lemma_empty_bytes(t);
            }
            t.as_bytes().len() == 0 && !str_eq(kind, "str")
        },
    };
    if !missing {
        return None;
    }
    let ft = f.text.as_str();
    proof {
        crate::text::lemma_empty_bytes(ft);
        reveal_strlit("=");
    }
    if ft.as_bytes().len() == 0 {
        Some("[Formula result unavailable]".to_owned())
    } else {
        let mut t = String::from_str("=");
        t.append(ft);
        Some(t)
    }
}

} // verus!
