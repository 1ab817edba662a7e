use vstd::prelude::*;
use vstd::string::StringExecFns;

verus! {

/// The platform the application runs on, decided once at startup.
///
/// The caller looks up the platform-conventional base directory itself —
/// `LOCALAPPDATA` on Windows, the per-app data directory on desktop Unix,
/// `HOME` on iOS, the app's private files directory on Android — and hands
/// it in as a plain value, or `None` when the lookup failed.
pub enum Platform {
    Windows,
    UnixDesktop,
    Ios,
    Android,
    Unsupported,
}

/// The path policy, first match wins:
/// Windows gets an app-id folder under the local app data directory; desktop
/// Unix and Android get the database file directly under their per-app
/// directory; iOS puts it under `Documents` in the home directory, falling
/// back to the current directory when `HOME` is unknown.  Everywhere else —
/// including any platform whose base directory could not be determined —
/// the policy degrades silently to the bare relative file name rather than
/// failing: the result is best effort, not guaranteed writable.
pub open spec fn resolved_path(p: Platform, base: Option<Seq<char>>) -> Seq<char> {
    match (p, base) {
        (Platform::Windows, Some(b)) => b + "/com.showen.TodoApp/data.db3"@,
        (Platform::UnixDesktop, Some(b)) => b + "/data.db3"@,
        (Platform::Ios, Some(b)) => b + "/Documents/data.db3"@,
        (Platform::Ios, None) => "./Documents/data.db3"@,
        (Platform::Android, Some(b)) => b + "/data.db3"@,
        _ => "data.db3"@,
    }
}

/// Resolves where the database file lives, per [`resolved_path`].  Pure
/// composition: reading the environment and creating the directory stay with
/// the caller.
pub fn get_db_path(platform: Platform, base: Option<String>) -> (r: String)
    ensures
        r@ == resolved_path(platform, base.deep_view()),
{
    match (platform, base) {
        (Platform::Windows, Some(b)) => b.concat("/com.showen.TodoApp/data.db3"),
        (Platform::UnixDesktop, Some(b)) => b.concat("/data.db3"),
        (Platform::Ios, Some(b)) => b.concat("/Documents/data.db3"),
        (Platform::Ios, None) => "./Documents/data.db3".to_owned(),
        (Platform::Android, Some(b)) => b.concat("/data.db3"),
        _ => "data.db3".to_owned(),
    }
}

} // verus!
