//! The listing of configuration profiles.
use vstd::prelude::*;
use vstd::string::*;
use crate::paths::{join_seq, join_strings, views};
use crate::runtime::profiles::AvailableContextProfiles;

verus! {

/// The text that lists the profiles of a configuration file.
pub open spec fn profiles_text(p: AvailableContextProfiles) -> Seq<char> {
    match p.source_path {
        Some(path) => if p.profiles@.len() == 0 {
            "Config: "@ + path@ + "\nNo context profiles defined."@
        } else {
            "Config: "@ + path@ + "\nProfiles:\n"@ + join_seq(views(p.profiles@), "\n"@)
        },
        None => "No `.sephera.toml` file found for the selected path."@,
    }
}

/// Lists the profiles of a configuration file, one per line under the
/// file's path, or says that no configuration file was found.
pub fn render_available_profiles(profiles: &AvailableContextProfiles) -> (r: String)
    ensures
        r@ == profiles_text(*profiles),
{
    match &profiles.source_path {
        Some(path) => {
            let mut r = "Config: ".to_owned();
            r.append(path.as_str());
            if profiles.profiles.len() == 0 {
                r.append("\nNo context profiles defined.");
            } else {
                r.append("\nProfiles:\n");
                r.append(join_strings(&profiles.profiles, "\n").as_str());
            }
            r
        },
        None => "No `.sephera.toml` file found for the selected path.".to_owned(),
    }
}

} // verus!
