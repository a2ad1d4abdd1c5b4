//! The property renderer: binds a property's name/value pair to its
//! resolved styling record and renders a single colorized line.

use crate::color::{spec_fg, Color};
use crate::config::{PropertyConfig, PropertyConfigView};
use vstd::prelude::*;

verus! {

/// A displayable host property: a name, its textual value, and the
/// resolved styling record governing how its line is rendered. Built per
/// displayed line and dropped after rendering.
pub struct Property {
    pub name: String,
    pub value: String,
    pub config: PropertyConfig,
}

/// The single line a property renders to: the name in its name color,
/// the separator in its separator color, the value in its value color,
/// and a final reset escape. No trailing newline; the caller terminates
/// the line.
pub open spec fn spec_render(
    name: Seq<char>,
    value: Seq<char>,
    c: PropertyConfigView,
) -> Seq<char> {
    spec_fg(c.name_color) + name + spec_fg(c.separator_color) + c.separator + spec_fg(
        c.value_color,
    ) + value + spec_fg(Color::Reset)
}

impl Property {
    /// Renders the colorized line for this property, as `spec_render`
    /// describes. Pure string construction; never fails.
    pub fn render(&self) -> (r: String)
        ensures
            r@ == spec_render(self.name@, self.value@, self.config@),
    {
        let mut r = self.config.name_color.fg();
        r.append(self.name.as_str());
        let sep_esc = self.config.separator_color.fg();
        r.append(sep_esc.as_str());
        r.append(self.config.separator.as_str());
        let val_esc = self.config.value_color.fg();
        r.append(val_esc.as_str());
        r.append(self.value.as_str());
        let reset = Color::Reset.fg();
        r.append(reset.as_str());
        r
    }
}

} // verus!

