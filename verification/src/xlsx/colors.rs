//! XLSX colors: RGB values, the theme palette and the indexed palette.
use super::{unsigned, unsigned_spec};
use crate::error::Error;
use crate::model::{texts, warn, warned};
use crate::text::{str_eq, utf8};
use crate::xml::{attr_spec, child_spec, descendant_spec, Node};
use vstd::prelude::*;
use vstd::string::StringSliceAdditionalSpecFns;

verus! {

broadcast use vstd::seq::group_seq_axioms;

/// The value of a hexadecimal digit, if it is one.
pub open spec fn hex_digit(c: u8) -> Option<int> {
    if 48 <= c <= 57 {
        Some(c - 48)
    } else if 97 <= c <= 102 {
        Some(c - 87)
    } else if 65 <= c <= 70 {
        Some(c - 55)
    } else {
        None
    }
}

/// All bytes are hexadecimal digits.
pub open spec fn all_hex(b: Seq<u8>) -> bool {
    forall|i: int| 0 <= i < b.len() ==> hex_digit(#[trigger] b[i]) is Some
}

/// The number that hexadecimal digits spell.
pub open spec fn hex_value(b: Seq<u8>) -> int
    decreases b.len(),
{
    if b.len() == 0 {
        0
    } else {
        hex_value(b.drop_last()) * 16 + hex_digit(b.last())->0
    }
}

/// An RGB or ARGB color of six or eight hexadecimal digits, made opaque.
pub open spec fn rgb_spec(b: Seq<u8>) -> Result<u32, Error> {
    if (b.len() == 6 || b.len() == 8) && all_hex(b) {
        Ok((0xff000000 + hex_value(b) % 0x1000000) as u32)
    } else {
        Err(Error::Invalid("Invalid XLSX RGB color"))
    }
}

proof fn lemma_hex_value_bound(b: Seq<u8>)
    requires
        all_hex(b),
    ensures
        0 <= hex_value(b) < pow16(b.len()),
    decreases b.len(),
{
    if b.len() > 0 {
        let init = b.drop_last();
        assert forall|i: int| 0 <= i < init.len() implies hex_digit(#[trigger] init[i]) is Some by {
            assert(init[i] == b[i]);
        }
        assert(hex_digit(b[b.len() - 1]) is Some);
        lemma_hex_value_bound(init);
    }
}

/// 16 to the power `n`.
pub open spec fn pow16(n: nat) -> int
    decreases n,
{
    if n == 0 {
        1
    } else {
        16 * pow16((n - 1) as nat)
    }
}

/// Reads an RGB or ARGB color; the alpha byte is always set.
pub fn rgb(value: &str) -> (r: Result<u32, Error>)
    ensures
        r == rgb_spec(value.spec_bytes()),
{
    let b = value.as_bytes();
    if b.len() != 6 && b.len() != 8 {
        return Err(Error::Invalid("Invalid XLSX RGB color"));
    }
    let mut v: u32 = 0;
    let mut i: usize = 0;
    while i < b.len()
        invariant
            b@ == value.spec_bytes(),
            b@.len() == 6 || b@.len() == 8,
            i <= b@.len(),
            all_hex(b@.take(i as int)),
            v == hex_value(b@.take(i as int)),
            v < pow16(i as nat),
        decreases b.len() - i,
    {
        let c = b[i];
        let d: u32 = if 48 <= c && c <= 57 {
            (c - 48) as u32
        } else if 97 <= c && c <= 102 {
            (c - 87) as u32
        } else if 65 <= c && c <= 70 {
            (c - 55) as u32
        } else {
            assert(!all_hex(b@));
            return Err(Error::Invalid("Invalid XLSX RGB color"));
        };
        proof {
            assert(pow16(i as nat) <= pow16(7)) by {
                reveal_with_fuel(pow16, 9);
            }
            assert(pow16(7) == 0x10000000) by {
                reveal_with_fuel(pow16, 9);
            }
            assert(b@.take(i + 1).drop_last() =~= b@.take(i as int));
            assert forall|j: int| 0 <= j < i + 1 implies hex_digit(#[trigger] b@.take(i + 1)[j]) is Some by {
                if j < i {
                    assert(b@.take(i + 1)[j] == b@.take(i as int)[j]);
                }
            }
        }
        v = v * 16 + d;
        i = i + 1;
    }
    assert(b@.take(b@.len() as int) =~= b@);
    let low = v % 0x1000000;
    let r: u32 = 0xff000000 + low;
    Ok(r)
}

/// The theme palette when a workbook has no theme: Office's defaults for
/// lt1, dk1, lt2, dk2, accent1 to accent6, hlink and folHlink.
pub open spec fn default_theme() -> Seq<u32> {
    seq![
        0xffffffffu32, 0xff000000u32, 0xffeeece1u32, 0xff1f497du32, 0xff4f81bdu32, 0xffc0504du32,
        0xff9bbb59u32, 0xff8064a2u32, 0xff4bacc6u32, 0xfff79646u32, 0xff0000ffu32, 0xff800080u32,
    ]
}

/// The twelve theme color names, in palette order.
pub open spec fn theme_names() -> Seq<Seq<char>> {
    seq![
        "lt1"@, "dk1"@, "lt2"@, "dk2"@, "accent1"@, "accent2"@, "accent3"@, "accent4"@,
        "accent5"@, "accent6"@, "hlink"@, "folHlink"@,
    ]
}

/// The color text a scheme gives one name: the `val` of an `srgbClr` or
/// the `lastClr` of a `sysClr` that is the named element's first child.
pub open spec fn scheme_value(scheme: Node, name: Seq<char>) -> Option<Seq<char>> {
    match child_spec(scheme, name) {
        None => None,
        Some(entry) => if entry.children@.len() == 0 {
            None
        } else {
            let color = entry.children@[0];
            if color.name@ == "srgbClr"@ {
                Some(attr_spec(color, "val"@))
            } else if color.name@ == "sysClr"@ {
                Some(attr_spec(color, "lastClr"@))
            } else {
                None
            }
        },
    }
}

/// The palette after the scheme's first `n` names are applied.
pub open spec fn theme_from(scheme: Node, n: nat) -> Result<Seq<u32>, Error>
    decreases n,
{
    if n == 0 {
        Ok(default_theme())
    } else {
        match theme_from(scheme, (n - 1) as nat) {
            Err(e) => Err(e),
            Ok(p) => match scheme_value(scheme, theme_names()[n - 1]) {
                None => Ok(p),
                Some(v) => match rgb_spec(utf8(v)) {
                    Err(e) => Err(e),
                    Ok(c) => Ok(p.update(n - 1, c)),
                },
            },
        }
    }
}

proof fn lemma_theme_err(scheme: Node, n: nat, m: nat)
    requires
        n <= m,
        theme_from(scheme, n) is Err,
    ensures
        theme_from(scheme, m) == theme_from(scheme, n),
    decreases m - n,
{
    if n < m {
        lemma_theme_err(scheme, n, (m - 1) as nat);
    }
}

/// The theme palette of a workbook.
pub open spec fn theme_spec(theme: Option<Node>) -> Result<Seq<u32>, Error> {
    match theme {
        None => Ok(default_theme()),
        Some(t) => match descendant_spec(t, "clrScheme"@) {
            None => Ok(default_theme()),
            Some(scheme) => theme_from(scheme, 12),
        },
    }
}

/// The 64 colors of the indexed palette (without alpha).
pub open spec fn indexed_palette() -> Seq<u32> {
    seq![
        0x000000u32, 0xffffffu32, 0xff0000u32, 0x00ff00u32, 0x0000ffu32, 0xffff00u32, 0xff00ffu32,
        0x00ffffu32, 0x000000u32, 0xffffffu32, 0xff0000u32, 0x00ff00u32, 0x0000ffu32, 0xffff00u32,
        0xff00ffu32, 0x00ffffu32, 0x800000u32, 0x008000u32, 0x000080u32, 0x808000u32, 0x800080u32,
        0x008080u32, 0xc0c0c0u32, 0x808080u32, 0x9999ffu32, 0x993366u32, 0xffffccu32, 0xccffffu32,
        0x660066u32, 0xff8080u32, 0x0066ccu32, 0xccccffu32, 0x000080u32, 0xff00ffu32, 0xffff00u32,
        0x00ffffu32, 0x800080u32, 0x800000u32, 0x008080u32, 0x0000ffu32, 0x00ccffu32, 0xccffffu32,
        0xccffccu32, 0xffff99u32, 0x99ccffu32, 0xff99ccu32, 0xcc99ffu32, 0xffcc99u32, 0x3366ffu32,
        0x33ccccu32, 0x99cc00u32, 0xffcc00u32, 0xff9900u32, 0xff6600u32, 0x666699u32, 0x969696u32,
        0x003366u32, 0x339966u32, 0x003300u32, 0x333300u32, 0x993300u32, 0x993366u32, 0x333399u32,
        0x333333u32,
    ]
}

/// An opaque color of the indexed palette.
pub fn indexed(index: usize) -> (r: u32)
    requires
        index < 64,
    ensures
        r == 0xff000000 + indexed_palette()[index as int],
{
    let palette: [u32; 64] = [
        0x000000, 0xffffff, 0xff0000, 0x00ff00, 0x0000ff, 0xffff00, 0xff00ff, 0x00ffff, 0x000000,
        0xffffff, 0xff0000, 0x00ff00, 0x0000ff, 0xffff00, 0xff00ff, 0x00ffff, 0x800000, 0x008000,
        0x000080, 0x808000, 0x800080, 0x008080, 0xc0c0c0, 0x808080, 0x9999ff, 0x993366, 0xffffcc,
        0xccffff, 0x660066, 0xff8080, 0x0066cc, 0xccccff, 0x000080, 0xff00ff, 0xffff00, 0x00ffff,
        0x800080, 0x800000, 0x008080, 0x0000ff, 0x00ccff, 0xccffff, 0xccffcc, 0xffff99, 0x99ccff,
        0xff99cc, 0xcc99ff, 0xffcc99, 0x3366ff, 0x33cccc, 0x99cc00, 0xffcc00, 0xff9900, 0xff6600,
        0x666699, 0x969696, 0x003366, 0x339966, 0x003300, 0x333300, 0x993300, 0x993366, 0x333399,
        0x333333,
    ];
    assert(palette@ =~= indexed_palette());
    0xff000000 + palette[index]
}

/// The palettes a workbook's colors refer to.
pub struct Colors {
    pub theme: Vec<u32>,
    pub has_theme: bool,
}

/// The color of a color element before any tint, or why it is refused,
/// with the warning it raises.
pub open spec fn base_color_spec(theme: Seq<u32>, has_theme: bool, node: Option<Node>, fallback: u32) -> (Result<u32, Error>, Option<Seq<char>>) {
    match node {
        None => (Ok(fallback), None),
        Some(n) => if attr_spec(n, "rgb"@).len() > 0 {
            (rgb_spec(utf8(attr_spec(n, "rgb"@))), None)
        } else if attr_spec(n, "theme"@).len() > 0 {
            match unsigned_spec(utf8(attr_spec(n, "theme"@))) {
                Err(e) => (Err(e), None),
                Ok(i) => (
                    if i < theme.len() {
                        Ok(theme[i as int])
                    } else {
                        Err(Error::Invalid("Invalid XLSX theme color"))
                    },
                    if has_theme {
                        None
                    } else {
                        Some(
                            "Theme colors use the default Office palette because the theme is missing"@,
                        )
                    },
                ),
            }
        } else if attr_spec(n, "indexed"@).len() > 0 {
            match unsigned_spec(utf8(attr_spec(n, "indexed"@))) {
                Err(e) => (Err(e), None),
                Ok(i) => if i < 64 {
                    (Ok((0xff000000 + indexed_palette()[i as int]) as u32), None)
                } else if i == 64 || i == 65 {
                    (Ok(fallback), None)
                } else {
                    (Err(Error::Invalid("Invalid XLSX indexed color")), None)
                },
            }
        } else {
            (Ok(fallback), None)
        },
    }
}

impl Colors {
    /// The palettes of a workbook: the theme's color scheme over Office's
    /// default palette.
    #[verifier::loop_isolation(false)]
    pub fn new(theme: Option<&Node>) -> (r: Result<Colors, Error>)
        ensures
            match theme_spec(
                match theme {
                    Some(t) => Some(*t),
                    None => None,
                },
            ) {
                Ok(p) => r matches Ok(c) && c.theme@ == p && c.has_theme == theme is Some,
                Err(e) => r == Err::<Colors, Error>(e),
            },
    {
        let mut palette: Vec<u32> = Vec::new();
        palette.push(0xffffffff);
        palette.push(0xff000000);
        palette.push(0xffeeece1);
        palette.push(0xff1f497d);
        palette.push(0xff4f81bd);
        palette.push(0xffc0504d);
        palette.push(0xff9bbb59);
        palette.push(0xff8064a2);
        palette.push(0xff4bacc6);
        palette.push(0xfff79646);
        palette.push(0xff0000ff);
        palette.push(0xff800080);
        assert(palette@ =~= default_theme());
        let has_theme = theme.is_some();
        let scheme = match theme {
            None => return Ok(Colors { theme: palette, has_theme }),
            Some(t) => match t.descendant("clrScheme") {
                None => return Ok(Colors { theme: palette, has_theme }),
                Some(s) => s,
            },
        };
        let names: [&str; 12] = [
            "lt1", "dk1", "lt2", "dk2", "accent1", "accent2", "accent3", "accent4", "accent5",
            "accent6", "hlink", "folHlink",
        ];
        assert(names@.map_values(|s: &str| s@) =~= theme_names());
        let mut i: usize = 0;
        while i < 12
            invariant
                i <= 12,
                palette@.len() == 12,
                names@.map_values(|s: &str| s@) == theme_names(),
                theme_from(*scheme, i as nat) == Ok::<Seq<u32>, Error>(palette@),
            decreases 12 - i,
        {
            assert(names@.map_values(|s: &str| s@)[i as int] == names@[i as int]@);
            let value = match scheme_entry(scheme, names[i]) {
                Some(v) => v,
                None => {
                    i = i + 1;
                    continue;
                },
            };
            let c = match rgb(value) {
                Ok(c) => c,
                Err(e) => {
                    proof {
                        lemma_theme_err(*scheme, (i + 1) as nat, 12);
                    }
                    return Err(e);
                },
            };
            palette.set(i, c);
            i = i + 1;
        }
        Ok(Colors { theme: palette, has_theme })
    }

    /// The color of a color element before any tint: an RGB value, a theme
    /// palette entry, an indexed palette entry (64 and 65 are the system
    /// colors, which give the fallback), or the fallback. A theme reference
    /// without a theme warns that the default palette is used.
    pub fn base_color(&self, node: Option<&Node>, fallback: u32, warnings: &mut Vec<String>) -> (r: Result<u32, Error>)
        ensures
            ({
                let (value, warning) = base_color_spec(
                    self.theme@,
                    self.has_theme,
                    match node {
                        Some(n) => Some(*n),
                        None => None,
                    },
                    fallback,
                );
                &&& r == value
                &&& texts(final(warnings)@) == match warning {
                    Some(m) => warned(texts(old(warnings)@), m),
                    None => texts(old(warnings)@),
                }
            }),
    {
        let n = match node {
            None => return Ok(fallback),
            Some(n) => n,
        };
        let rgb_text = n.attr("rgb");
        let theme_text = n.attr("theme");
        let indexed_text = n.attr("indexed");
        proof {
            crate::text::lemma_empty_bytes(rgb_text);
            crate::text::lemma_empty_bytes(theme_text);
            crate::text::lemma_empty_bytes(indexed_text);
        }
        if rgb_text.as_bytes().len() > 0 {
            rgb(rgb_text)
        } else if theme_text.as_bytes().len() > 0 {
            let index = unsigned(theme_text)?;
            if !self.has_theme {
                warn(
                    warnings,
                    "Theme colors use the default Office palette because the theme is missing",
                );
            }
            if (index as usize) < self.theme.len() {
                Ok(self.theme[index as usize])
            } else {
                Err(Error::Invalid("Invalid XLSX theme color"))
            }
        } else if indexed_text.as_bytes().len() > 0 {
            let index = unsigned(indexed_text)?;
            if index < 64 {
                Ok(indexed(index as usize))
            } else if index == 64 || index == 65 {
                Ok(fallback)
            } else {
                Err(Error::Invalid("Invalid XLSX indexed color"))
            }
        } else {
            Ok(fallback)
        }
    }
}

/// The color text a scheme gives `name` (see `scheme_value`).
fn scheme_entry<'a>(scheme: &'a Node, name: &str) -> (r: Option<&'a str>)
    ensures
        match scheme_value(*scheme, name@) {
            Some(v) => r matches Some(s) && s@ == v,
            None => r is None,
        },
{
    let entry = match scheme.child(name) {
        None => return None,
        Some(e) => e,
    };
    if entry.children.len() == 0 {
        return None;
    }
    let color = &entry.children[0];
    if str_eq(color.name.as_str(), "srgbClr") {
        Some(color.attr("val"))
    } else if str_eq(color.name.as_str(), "sysClr") {
        Some(color.attr("lastClr"))
    } else {
        None
    }
}

} // verus!
