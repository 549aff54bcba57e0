//! With colorization forced on, the emphasis really goes through
//! `colored`: the matched substring comes back wrapped in the red
//! escape codes, in original casing.

use colored::control::set_override;
use minigrep::output::search;

#[test]
fn test_forced_colorization_wraps_match() {
    set_override(true);
    let results = search("warn", "a Warning here", true);
    assert_eq!(results.len(), 1);
    assert_eq!(results[0].line_text, "a \x1b[31mWarn\x1b[0ming here");
}
