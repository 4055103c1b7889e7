//! Which audio sources the level monitors listen to: the default source (the
//! microphone) and the monitor of the default sink (what is playing).

use vstd::prelude::*;
use vstd::string::*;

verus! {

/// The source the microphone monitor records: the server's default source,
/// or `@DEFAULT_SOURCE@` when the server named none.
pub fn mic_source_name(default_source: Option<String>) -> (name: String)
    ensures
        name@ == match default_source {
            Some(s) => s@,
            None => "@DEFAULT_SOURCE@"@,
        },
{
    match default_source {
        Some(s) => s,
        None => String::from_str("@DEFAULT_SOURCE@"),
    }
}

/// The source the music monitor records: the monitor of the default sink
/// (`<sink>.monitor`), with `@DEFAULT_SINK@` standing for the sink when the
/// server named none.
pub fn sink_monitor_name(default_sink: Option<String>) -> (name: String)
    ensures
        name@ == match default_sink {
            Some(s) => s@,
            None => "@DEFAULT_SINK@"@,
        } + ".monitor"@,
{
    let mut name = match default_sink {
        Some(s) => s,
        None => String::from_str("@DEFAULT_SINK@"),
    };
    name.append(".monitor");
    name
}

} // verus!
