//! Configuration values: capture mode (live interface or replayed file)
//! and the optional application debug target. Loading them from disk is
//! the surrounding program's business; the library only holds the values.

use vstd::prelude::*;

verus! {

/// Capture selection: `mode` is `"interface"` or `"file"`, with the
/// interface identifier or file path to use.
#[derive(Debug, Clone)]
pub struct General {
    pub mode: String,
    pub interface: String,
    pub file: String,
}

/// Debug output selection for the WhatsApp classifier.
#[derive(Debug, Clone)]
pub struct Whatsapp {
    pub debug: bool,
    pub file: String,
}

/// The whole configuration.
#[derive(Debug, Clone)]
pub struct Config {
    pub general: General,
    pub whatsapp: Whatsapp,
}

impl Default for Config {
    /// The built-in default: live capture on the default interface, with
    /// WhatsApp debug output enabled.
    fn default() -> (c: Config)
        ensures
            c.general.mode@ == "interface"@,
            c.general.interface@ == "enx58ef68b4b1a5"@,
            c.general.file@ == ""@,
            c.whatsapp.debug,
            c.whatsapp.file@ == "whatsapp"@,
    {
        Config {
            general: General {
                mode: "interface".to_owned(),
                interface: "enx58ef68b4b1a5".to_owned(),
                file: "".to_owned(),
            },
            whatsapp: Whatsapp { debug: true, file: "whatsapp".to_owned() },
        }
    }
}

} // verus!
