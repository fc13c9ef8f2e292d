use vstd::prelude::*;
use crate::pixel::Rgba;
use crate::frame::PixelFormat;
use crate::batch::Step;
use crate::region::Region;
use crate::render::MethodKind;
use crate::text::push_char;
use vstd::string::StringExecFns;

verus! {

/// Where frames go.
#[derive(Debug, Clone, PartialEq, Eq)]
pub enum DestinationKind {
    /// One still image per frame, at this path.
    File(String),
    /// Raw frames on standard output.
    Stdout,
}

/// Where the palette comes from.
#[derive(Debug, Clone)]
pub enum PaletteSource {
    /// A palette file at this path.
    File(String),
    /// The colors themselves.
    Array(Vec<Rgba>),
}

/// The drawing style and its palette.
#[derive(Debug, Clone)]
pub struct MethodConfig {
    pub palette: Option<PaletteSource>,
    pub kind: MethodKind,
}

/// The destination and the layout of its frames.
#[derive(Debug, Clone)]
pub struct DestinationConfig {
    pub format: PixelFormat,
    pub kind: DestinationKind,
}

/// The canvas: a background image, or a size, a color and whether it is transparent.
#[derive(Debug, Clone)]
pub struct CanvasConfig {
    pub source: Option<String>,
    pub size: Option<Region>,
    pub background: Option<Rgba>,
    pub transparency: bool,
}

/// Everything one render needs to know.
#[derive(Debug, Clone)]
pub struct RenderConfig {
    pub destination: DestinationConfig,
    pub method: MethodConfig,
    pub canvas: CanvasConfig,
    pub step: Step,
}

/// A configuration value that an error can name.
#[derive(Debug, Clone, Copy, PartialEq, Eq, Structural)]
pub enum ConfigValue {
    ConfigSource,
    ProgramLogSource,
    ProgramQuiet,
    ProgramThreads,
    ProgramDryRun,
    MethodPalette,
    MethodKind,
    CanvasSource,
    CanvasSize,
    CanvasBackgroundSource,
    CanvasTransparency,
    DestinationKind,
    DestinationFormat,
    Step,
}

/// A shorthand that sets several values at once.
#[derive(Debug, Clone, Copy, PartialEq, Eq, Structural)]
pub enum ConfigAlias {
    Screenshot,
}

/// What is wrong with a configuration.
#[derive(Debug, Clone, PartialEq, Eq)]
pub enum ConfigError {
    /// These required values were not given.
    MissingValue(Vec<ConfigValue>),
    /// This value cannot be used.
    InvalidValue(ConfigValue),
    /// This value could not be worked out from the others.
    CannotInfer(ConfigValue),
}

/// The name of a configuration value.
pub open spec fn value_name(v: ConfigValue) -> Seq<char> {
    match v {
        ConfigValue::ConfigSource => "config source"@,
        ConfigValue::ProgramLogSource => "program actions"@,
        ConfigValue::ProgramQuiet => "program quiet"@,
        ConfigValue::ProgramThreads => "program threads"@,
        ConfigValue::ProgramDryRun => "program dry run"@,
        ConfigValue::MethodPalette => "method palette"@,
        ConfigValue::MethodKind => "method kind"@,
        ConfigValue::CanvasSource => "canvas source"@,
        ConfigValue::CanvasSize => "canvas size"@,
        ConfigValue::CanvasBackgroundSource => "canvas background"@,
        ConfigValue::CanvasTransparency => "canvas transparency"@,
        ConfigValue::DestinationKind => "destination kind"@,
        ConfigValue::DestinationFormat => "destination format"@,
        ConfigValue::Step => "step"@,
    }
}

/// Names in quotes, separated by spaces: `"a" "b"`.
pub open spec fn quoted_list(names: Seq<Seq<char>>) -> Seq<char>
    decreases names.len(),
{
    if names.len() == 0 {
        Seq::empty()
    } else if names.len() == 1 {
        seq!['"'] + names[0] + seq!['"']
    } else {
        quoted_list(names.drop_last()) + seq![' ', '"'] + names.last() + seq!['"']
    }
}

impl ConfigValue {
    /// The value's name.
    pub fn to_str(&self) -> (r: &'static str)
        ensures
            r@ == value_name(*self),
    {
        match self {
            ConfigValue::ConfigSource => "config source",
            ConfigValue::ProgramLogSource => "program actions",
            ConfigValue::ProgramQuiet => "program quiet",
            ConfigValue::ProgramThreads => "program threads",
            ConfigValue::ProgramDryRun => "program dry run",
            ConfigValue::MethodPalette => "method palette",
            ConfigValue::MethodKind => "method kind",
            ConfigValue::CanvasSource => "canvas source",
            ConfigValue::CanvasSize => "canvas size",
            ConfigValue::CanvasBackgroundSource => "canvas background",
            ConfigValue::CanvasTransparency => "canvas transparency",
            ConfigValue::DestinationKind => "destination kind",
            ConfigValue::DestinationFormat => "destination format",
            ConfigValue::Step => "step",
        }
    }

    /// The values' names in quotes, separated by spaces.
    pub fn stringify_vec(values: &[ConfigValue]) -> (r: String)
        ensures
            r@ == quoted_list(values@.map_values(|v: ConfigValue| value_name(v))),
    {
        let ghost names = values@.map_values(|v: ConfigValue| value_name(v));
        let mut out = String::new();
        let mut i: usize = 0;
        while i < values.len()
            invariant
                names == values@.map_values(|v: ConfigValue| value_name(v)),
                0 <= i <= values@.len(),
                out@ == quoted_list(names.subrange(0, i as int)),
            decreases values@.len() - i,
        {
            if i > 0 {
                push_char(&mut out, ' ');
            }
            push_char(&mut out, '"');
            out.append(values[i].to_str());
            push_char(&mut out, '"');
            proof {
                let sub = names.subrange(0, i + 1);
                assert(sub.drop_last() =~= names.subrange(0, i as int));
                assert(out@ =~= quoted_list(sub));
            }
            i = i + 1;
        }
        assert(names.subrange(0, values@.len() as int) =~= names);
        out
    }
}

impl ConfigAlias {
    /// The alias's name.
    pub fn to_str(&self) -> (r: &'static str)
        ensures
            r@ == "screenshot"@,
    {
        match self {
            ConfigAlias::Screenshot => "screenshot",
        }
    }
}

impl ConfigError {
    /// The error for values that were not given.
    pub fn new_missing(values: Vec<ConfigValue>) -> (e: ConfigError)
        ensures
            e == ConfigError::MissingValue(values),
    {
        ConfigError::MissingValue(values)
    }

    /// The error for a value that could not be worked out.
    pub fn new_infer(value: ConfigValue) -> (e: ConfigError)
        ensures
            e == ConfigError::CannotInfer(value),
    {
        ConfigError::CannotInfer(value)
    }
}

/// Why a render cannot be set up with a step, a style, a frame layout and
/// a canvas size, if it cannot: a step or a heat window that is not
/// positive, or odd dimensions for 4:2:0 frames.
pub open spec fn render_problem(step: Step, kind: MethodKind, format: PixelFormat, width: int, height: int) -> Option<ConfigValue> {
    if !step.wf() {
        Some(ConfigValue::Step)
    } else if !kind.wf() {
        Some(ConfigValue::MethodKind)
    } else if format == PixelFormat::Yuv420p && (width % 2 != 0 || height % 2 != 0) {
        Some(ConfigValue::CanvasSize)
    } else {
        None
    }
}

/// Checks a render's settings before anything is drawn.
pub fn validate_render(step: Step, kind: MethodKind, format: PixelFormat, width: u32, height: u32) -> (r: Result<(), ConfigError>)
    ensures
        r is Ok <==> render_problem(step, kind, format, width as int, height as int) is None,
        r matches Err(e) ==> e == ConfigError::InvalidValue(
            render_problem(step, kind, format, width as int, height as int)->Some_0,
        ),
{
    if step.get() <= 0 {
        return Err(ConfigError::InvalidValue(ConfigValue::Step));
    }
    if let MethodKind::Heatmap(w) = kind {
        if w <= 0 {
            return Err(ConfigError::InvalidValue(ConfigValue::MethodKind));
        }
    }
    if format == PixelFormat::Yuv420p && (width % 2 != 0 || height % 2 != 0) {
        return Err(ConfigError::InvalidValue(ConfigValue::CanvasSize));
    }
    Ok(())
}

} // verus!
