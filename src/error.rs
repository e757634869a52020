use vstd::prelude::*;

verus! {

/// Why a run failed. Messages from collaborators outside the library (file
/// system, image codec, configuration source, network) travel as text.
#[derive(Debug)]
pub enum AppError {
    Io(String),
    Image(String),
    Config(String),
    Toml(String),
    DownloadError(String),
    Other(String),
    /// The palette holds no colour.
    PaletteEmpty,
    /// No compatible compute device could be acquired.
    DeviceUnavailable,
    /// A device result buffer could not be mapped for reading.
    BufferMapFailed,
}

/// The text shown for an error: a prefix naming its kind, then the message.
pub open spec fn error_text(e: AppError) -> Seq<char> {
    match e {
        AppError::Io(m) => "I/O error: "@ + m@,
        AppError::Image(m) => "Image error: "@ + m@,
        AppError::Config(m) => "Config error: "@ + m@,
        AppError::Toml(m) => "TOML error: "@ + m@,
        AppError::DownloadError(m) => "Download error: "@ + m@,
        AppError::Other(m) => "Error: "@ + m@,
        AppError::PaletteEmpty => "Error: the palette is empty"@,
        AppError::DeviceUnavailable => "Error: no compatible compute device"@,
        AppError::BufferMapFailed => "Error: a result buffer could not be read"@,
    }
}

fn prefixed(prefix: &str, m: &String) -> (r: String)
    ensures
        r@ == prefix@ + m@,
{
    let mut r = String::from_str(prefix);
    r.append(m.as_str());
    r
}

impl AppError {
    /// The error as text for the user.
    pub fn message(&self) -> (r: String)
        ensures
            r@ == error_text(*self),
    {
        match self {
            AppError::Io(m) => prefixed("I/O error: ", m),
            AppError::Image(m) => prefixed("Image error: ", m),
            AppError::Config(m) => prefixed("Config error: ", m),
            AppError::Toml(m) => prefixed("TOML error: ", m),
            AppError::DownloadError(m) => prefixed("Download error: ", m),
            AppError::Other(m) => prefixed("Error: ", m),
            AppError::PaletteEmpty => String::from_str("Error: the palette is empty"),
            AppError::DeviceUnavailable => String::from_str("Error: no compatible compute device"),
            AppError::BufferMapFailed => String::from_str(
                "Error: a result buffer could not be read",
            ),
        }
    }
}

impl From<String> for AppError {
    /// A bare message is an error of no particular kind.
    fn from(err: String) -> (e: AppError) {
        AppError::Other(err)
    }
}

impl vstd::std_specs::convert::FromSpecImpl<String> for AppError {
    open spec fn obeys_from_spec() -> bool {
        true
    }

    open spec fn from_spec(v: String) -> AppError {
        AppError::Other(v)
    }
}

} // verus!
