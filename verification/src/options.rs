//! User options of the map viewer.

use vstd::prelude::*;

verus! {

/// The color scheme file that overrides single colors.
pub const OVERRIDE_COLORS: &'static str = "../data/system/override_colors.json";

/// The color scheme file for night mode.
pub const NIGHT_COLORS: &'static str = "../data/system/night_colors.json";

/// How traffic signals are drawn.
#[derive(Clone, Copy, Debug, PartialEq, Eq, Structural)]
pub enum TrafficSignalStyle {
    GroupArrows,
    Sidewalks,
    Icons,
    IndividualTurnArrows,
}

impl TrafficSignalStyle {
    /// The text that describes the style where the user chooses one.
    pub fn describe(&self) -> (text: &'static str)
        ensures
            text@ == match *self {
                TrafficSignalStyle::GroupArrows => "arrows showing the protected and permitted movements"@,
                TrafficSignalStyle::Sidewalks => "arrows showing the protected and permitted movements, with sidewalks"@,
                TrafficSignalStyle::Icons => "icons for movements (like the editor UI)"@,
                TrafficSignalStyle::IndividualTurnArrows => "arrows showing individual turns (to debug)"@,
            },
    {
        match self {
            TrafficSignalStyle::GroupArrows => "arrows showing the protected and permitted movements",
            TrafficSignalStyle::Sidewalks => "arrows showing the protected and permitted movements, with sidewalks",
            TrafficSignalStyle::Icons => "icons for movements (like the editor UI)",
            TrafficSignalStyle::IndividualTurnArrows => "arrows showing individual turns (to debug)",
        }
    }
}

/// What has to be redone after new options were applied.
#[derive(Clone, Copy, Debug, PartialEq, Eq, Structural)]
pub struct ApplyEffects {
    /// Traffic signals are drawn anew.
    pub rerender_traffic_signals: bool,
    /// The map is loaded anew, in the new colors.
    pub reload_map: bool,
}

/// The text of a color scheme's file, if there is one.
pub open spec fn scheme_text(scheme: Option<String>) -> Option<Seq<char>> {
    match scheme {
        Some(path) => Some(path@),
        None => None,
    }
}

/// Tests whether two color schemes are the same.
fn same_scheme(a: &Option<String>, b: &Option<String>) -> (same: bool)
    ensures
        same == (scheme_text(*a) == scheme_text(*b)),
{
    match a {
        Some(x) => match b {
            Some(y) => *x == *y,
            None => false,
        },
        None => b.is_none(),
    }
}

/// The options.
#[derive(Clone)]
pub struct Options {
    pub traffic_signal_style: TrafficSignalStyle,
    /// The file of the color scheme, or `None` for the built-in colors.
    pub color_scheme: Option<String>,
    pub dev: bool,
}

impl Options {
    /// The color scheme is the built-in one or one of the two that ship.
    pub open spec fn known_color_scheme(&self) -> bool {
        match self.color_scheme {
            None => true,
            Some(path) => path@ == OVERRIDE_COLORS@ || path@ == NIGHT_COLORS@,
        }
    }

    /// The name of the color scheme in use.
    pub open spec fn spec_cs_name(&self) -> Seq<char> {
        match self.color_scheme {
            None => "default"@,
            Some(path) => if path@ == OVERRIDE_COLORS@ {
                "overridden"@
            } else {
                "night mode"@
            },
        }
    }

    /// The options a new user starts with: signals drawn as grouped arrows,
    /// the built-in colors, and no developer mode.
    pub fn default() -> (opts: Options)
        ensures
            opts.traffic_signal_style == TrafficSignalStyle::GroupArrows,
            opts.color_scheme.is_none(),
            !opts.dev,
    {
        Options {
            traffic_signal_style: TrafficSignalStyle::GroupArrows,
            color_scheme: None,
            dev: false,
        }
    }

    /// Applies what the user has set in the options panel, and tells what
    /// has to be redone for it: traffic signals are drawn anew if their style
    /// changed, and the map is loaded anew if the color scheme changed.
    pub fn apply(
        &mut self,
        dev: bool,
        traffic_signal_style: TrafficSignalStyle,
        color_scheme: Option<String>,
    ) -> (effects: ApplyEffects)
        ensures
            final(self).dev == dev,
            final(self).traffic_signal_style == traffic_signal_style,
            scheme_text(final(self).color_scheme) == scheme_text(color_scheme),
            effects.rerender_traffic_signals == (old(self).traffic_signal_style
                != traffic_signal_style),
            effects.reload_map == (scheme_text(old(self).color_scheme) != scheme_text(
                color_scheme,
            )),
    {
        self.dev = dev;
        let rerender_traffic_signals: bool = self.traffic_signal_style != traffic_signal_style;
        if rerender_traffic_signals {
            self.traffic_signal_style = traffic_signal_style;
        }
        let reload_map: bool = !same_scheme(&self.color_scheme, &color_scheme);
        if reload_map {
            self.color_scheme = color_scheme;
        }
        ApplyEffects { rerender_traffic_signals, reload_map }
    }

    /// Tests whether the color scheme is one that [`Options::cs_name`] knows.
    pub fn has_known_color_scheme(&self) -> (b: bool)
        ensures
            b == self.known_color_scheme(),
    {
        match &self.color_scheme {
            None => true,
            Some(path) => {
                let overridden: String = OVERRIDE_COLORS.to_owned();
                let night: String = NIGHT_COLORS.to_owned();
                *path == overridden || *path == night
            },
        }
    }

    /// The name of the color scheme in use.
    pub fn cs_name(&self) -> (name: &'static str)
        requires
            self.known_color_scheme(),
        ensures
            name@ == self.spec_cs_name(),
    {
        match &self.color_scheme {
            None => "default",
            Some(path) => {
                let overridden: String = OVERRIDE_COLORS.to_owned();
                if *path == overridden {
                    "overridden"
                } else {
                    "night mode"
                }
            },
        }
    }
}

} // verus!
