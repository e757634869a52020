use vstd::prelude::*;

use crate::blend::BLEND_SCALE;
use crate::color::LabColor;
use crate::colorscheme::chars_of;
use crate::dither::DITHER_SCALE;
use crate::table::all_valid;
use crate::error::AppError;

verus! {

/// Settings as read from a configuration file, every number still as text.
pub struct SerializedAppConfig {
    pub blend_factor: String,
    pub colorscheme: String,
    pub interpolate_colors: bool,
    pub interpolation_threshold: String,
    pub dither_amount: String,
    pub spatial_averaging_radius: String,
}

impl SerializedAppConfig {
    /// The settings that hold where no file says otherwise.
    pub fn defaults() -> (c: SerializedAppConfig)
        ensures
            c.blend_factor@ == "0.9"@,
            c.colorscheme@ == "kanagawa"@,
            c.interpolate_colors,
            c.interpolation_threshold@ == "2.5"@,
            c.dither_amount@ == "0.1"@,
            c.spatial_averaging_radius@ == "10"@,
    {
        SerializedAppConfig {
            blend_factor: String::from_str("0.9"),
            colorscheme: String::from_str("kanagawa"),
            interpolate_colors: true,
            interpolation_threshold: String::from_str("2.5"),
            dither_amount: String::from_str("0.1"),
            spatial_averaging_radius: String::from_str("10"),
        }
    }
}

/// The loaded settings, with the directory that colorscheme files are looked
/// up in.
pub struct ConfigInfo {
    pub config: SerializedAppConfig,
    pub config_dir: String,
}

/// Everything one run needs: what to read and write, and how to recolour.
pub struct AppConfig {
    pub input_output_pairs: Vec<(String, String)>,
    /// Fraction of `BLEND_SCALE`.
    pub blend_factor: u32,
    /// The palette, in Lab.
    pub colors: Vec<LabColor>,
    /// Fraction of `DITHER_SCALE`.
    pub dither_amount: u32,
    pub spatial_averaging_radius: u32,
}

impl AppConfig {
    /// The palette is not empty and its colours are valid; both fractions are
    /// at most one.
    pub open spec fn wf(&self) -> bool {
        &&& self.colors@.len() > 0
        &&& all_valid(self.colors@)
        &&& self.blend_factor <= BLEND_SCALE
        &&& self.dither_amount <= DITHER_SCALE
    }

    /// Assembles a run's configuration. An empty palette is refused, never
    /// replaced by a default; fractions above one are capped at one.
    pub fn new(
        input_output_pairs: Vec<(String, String)>,
        blend_factor: u32,
        colors: Vec<LabColor>,
        dither_amount: u32,
        spatial_averaging_radius: u32,
    ) -> (r: Result<AppConfig, AppError>)
        requires
            all_valid(colors@),
        ensures
            r is Err <==> colors@.len() == 0,
            r matches Err(e) ==> e is PaletteEmpty,
            r matches Ok(c) ==> {
                &&& c.wf()
                &&& c.input_output_pairs@ == input_output_pairs@
                &&& c.colors@ == colors@
                &&& c.spatial_averaging_radius == spatial_averaging_radius
                &&& c.blend_factor == if blend_factor <= BLEND_SCALE {
                    blend_factor
                } else {
                    BLEND_SCALE
                }
                &&& c.dither_amount == if dither_amount <= DITHER_SCALE {
                    dither_amount
                } else {
                    DITHER_SCALE
                }
            },
    {
        if colors.len() == 0 {
            return Err(AppError::PaletteEmpty);
        }
        let blend_factor = if blend_factor <= BLEND_SCALE {
            blend_factor
        } else {
            BLEND_SCALE
        };
        let dither_amount = if dither_amount <= DITHER_SCALE {
            dither_amount
        } else {
            DITHER_SCALE
        };
        Ok(AppConfig {
            input_output_pairs,
            blend_factor,
            colors,
            dither_amount,
            spatial_averaging_radius,
        })
    }
}

/// Where a colorscheme's colours come from.
#[derive(Clone, Copy, Debug, PartialEq, Eq, Structural)]
pub enum ColorschemeSource {
    /// A file of that name in the configuration directory.
    LocalFile,
    /// The built-in default palette.
    BuiltIn,
    /// The public colorscheme collection, over the network.
    Download,
}

/// Name of the built-in colorscheme.
pub open spec fn builtin_name() -> Seq<char> {
    "kanagawa"@
}

fn same_text(a: &str, b: &str) -> (r: bool)
    ensures
        r == (a@ == b@),
{
    let x = chars_of(a);
    let y = chars_of(b);
    if x.len() != y.len() {
        return false;
    }
    let mut i: usize = 0;
    while i < x.len()
        invariant
            x@.len() == y@.len(),
            x@ == a@,
            y@ == b@,
            0 <= i <= x@.len(),
            forall|j: int| 0 <= j < i ==> x@[j] == y@[j],
        decreases x@.len() - i,
    {
        if x[i] != y[i] {
            proof {
                assert(a@[i as int] != b@[i as int]);
            }
            return false;
        }
        i = i + 1;
    }
    proof {
        assert(x@ =~= y@);
    }
    true
}

/// Picks where the colorscheme `name` is read from: a local file wins, then
/// the built-in scheme, else it is downloaded.
pub fn colorscheme_source(name: &str, local_file_exists: bool) -> (s: ColorschemeSource)
    ensures
        local_file_exists ==> s == ColorschemeSource::LocalFile,
        !local_file_exists && name@ == builtin_name() ==> s == ColorschemeSource::BuiltIn,
        !local_file_exists && name@ != builtin_name() ==> s == ColorschemeSource::Download,
{
    if local_file_exists {
        ColorschemeSource::LocalFile
    } else {
        proof {
            reveal_strlit("kanagawa");
        }
        if same_text(name, "kanagawa") {
            ColorschemeSource::BuiltIn
        } else {
            ColorschemeSource::Download
        }
    }
}

/// What `std::path::Path::file_stem` gives for a path.
pub uninterp spec fn file_stem_of(p: Seq<char>) -> Option<Seq<char>>;

/// What `std::path::Path::extension` gives for a path.
pub uninterp spec fn extension_of(p: Seq<char>) -> Option<Seq<char>>;

/// What `std::path::Path::join` gives for a directory and a file name.
pub uninterp spec fn joined_path(dir: Seq<char>, name: Seq<char>) -> Seq<char>;

/// What `std::path::Path::with_file_name` gives for a path and a file name.
pub uninterp spec fn with_file_name_of(p: Seq<char>, name: Seq<char>) -> Seq<char>;

/// Relies on `std::path::Path::file_stem`: the stem is a function of the
/// path's text.
#[verifier::external_body]
fn path_file_stem(p: &str) -> (r: Option<String>)
    ensures
        match r {
            Some(s) => file_stem_of(p@) == Some(s@),
            None => file_stem_of(p@) is None,
        },
{
    match std::path::Path::new(p).file_stem() {
        Some(s) => Some(s.to_string_lossy().into_owned()),
        None => None,
    }
}

/// Relies on `std::path::Path::extension`: the extension is a function of
/// the path's text.
#[verifier::external_body]
fn path_extension(p: &str) -> (r: Option<String>)
    ensures
        match r {
            Some(s) => extension_of(p@) == Some(s@),
            None => extension_of(p@) is None,
        },
{
    match std::path::Path::new(p).extension() {
        Some(s) => Some(s.to_string_lossy().into_owned()),
        None => None,
    }
}

/// Relies on `std::path::Path::join`: the joined path is a function of both
/// texts.
#[verifier::external_body]
fn path_join(dir: &str, name: &str) -> (r: String)
    ensures
        r@ == joined_path(dir@, name@),
{
    std::path::Path::new(dir).join(name).to_string_lossy().into_owned()
}

/// Relies on `std::path::Path::with_file_name`: the new path is a function of
/// both texts.
#[verifier::external_body]
fn path_with_file_name(p: &str, name: &str) -> (r: String)
    ensures
        r@ == with_file_name_of(p@, name@),
{
    std::path::Path::new(p).with_file_name(name).to_string_lossy().into_owned()
}

/// File name of the output for an input with `stem` and `ext`:
/// `<stem>_<colorscheme>.<ext>`.
pub open spec fn output_file_name(stem: Seq<char>, colorscheme: Seq<char>, ext: Seq<char>) -> Seq<
    char,
> {
    stem + seq!['_'] + colorscheme + seq!['.'] + ext
}

/// Output path of one input: next to it, or in `output_dir` when given.
pub open spec fn output_path_of(
    input: Seq<char>,
    output_dir: Option<Seq<char>>,
    colorscheme: Seq<char>,
) -> Seq<char> {
    let ext = match extension_of(input) {
        Some(e) => e,
        None => Seq::<char>::empty(),
    };
    let name = output_file_name(file_stem_of(input)->0, colorscheme, ext);
    match output_dir {
        Some(d) => joined_path(d, name),
        None => with_file_name_of(input, name),
    }
}

/// The directory's text, if any.
pub open spec fn dir_text(d: Option<String>) -> Option<Seq<char>> {
    match d {
        Some(s) => Some(s@),
        None => None,
    }
}

/// Pairs each input path with the path its result is written to:
/// `<stem>_<colorscheme>.<ext>` beside the input, or in `output_dir`. An
/// input path without a file name is refused.
pub fn generate_input_output_pairs(
    input_paths: &[&str],
    output_dir: Option<String>,
    colorscheme: &str,
) -> (r: Result<Vec<(String, String)>, AppError>)
    ensures
        r is Err <==> exists|i: int|
            0 <= i < input_paths@.len() && #[trigger] file_stem_of(input_paths@[i]@) is None,
        r matches Err(e) ==> e is Other,
        r matches Ok(v) ==> {
            &&& v@.len() == input_paths@.len()
            &&& forall|i: int|
                0 <= i < v@.len() ==> (#[trigger] v@[i]).0@ == input_paths@[i]@ && v@[i].1@
                    == output_path_of(input_paths@[i]@, dir_text(output_dir), colorscheme@)
        },
{
    let mut pairs: Vec<(String, String)> = Vec::new();
    let mut i: usize = 0;
    while i < input_paths.len()
        invariant
            0 <= i <= input_paths@.len(),
            pairs@.len() == i,
            forall|j: int| 0 <= j < i ==> #[trigger] file_stem_of(input_paths@[j]@) is Some,
            forall|j: int|
                0 <= j < i ==> (#[trigger] pairs@[j]).0@ == input_paths@[j]@ && pairs@[j].1@
                    == output_path_of(input_paths@[j]@, dir_text(output_dir), colorscheme@),
        decreases input_paths@.len() - i,
    {
        let input_path: &str = input_paths[i];
        let stem = match path_file_stem(input_path) {
            Some(s) => s,
            None => {
                let mut m = String::from_str("Input path '");
                m.append(input_path);
                m.append("' has no file name");
                return Err(AppError::Other(m));
            },
        };
        let extension = match path_extension(input_path) {
            Some(e) => e,
            None => String::new(),
        };
        let mut name = stem;
        name.append("_");
        name.append(colorscheme);
        name.append(".");
        name.append(extension.as_str());
        proof {
            reveal_strlit("_");
            reveal_strlit(".");
            assert(name@ =~= output_file_name(
                file_stem_of(input_path@)->0,
                colorscheme@,
                extension@,
            ));
        }
        let output_path = match &output_dir {
            Some(dir) => path_join(dir.as_str(), name.as_str()),
            None => path_with_file_name(input_path, name.as_str()),
        };
        pairs.push((String::from_str(input_path), output_path));
        i = i + 1;
    }
    Ok(pairs)
}

} // verus!
