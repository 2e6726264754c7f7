//! The background service: where its description is kept and what it says.
use vstd::prelude::*;

use crate::paths::{join_path, path_below};
use crate::text::{chars_of, same_text};
use crate::text::views;

verus! {

/// The name of the service.
pub open spec fn label() -> Seq<char> {
    "com.codex.unified-provider-sync"@
}

/// The name of the service.
pub fn service_label() -> (r: String)
    ensures
        r@ == label(),
{
    "com.codex.unified-provider-sync".to_owned()
}

/// Why the service cannot be managed.
#[derive(Debug, Clone, Copy, PartialEq, Eq, Structural)]
pub enum LaunchError {
    /// Nobody tells who the user is.
    UnknownUser,
    /// The user is the administrator and not the one who is logged in.
    Administrator,
    /// Nobody tells where the home directory is.
    UnknownHome,
}

impl LaunchError {
    /// The error in words.
    pub open spec fn words(self) -> Seq<char> {
        match self {
            LaunchError::UnknownUser => "Cannot determine current user ID"@,
            LaunchError::Administrator => "LaunchAgents must be managed from the logged-in user session; do not use sudo"@,
            LaunchError::UnknownHome => "Cannot determine home directory"@,
        }
    }

    /// The error in words.
    pub fn message(&self) -> (r: String)
        ensures
            r@ == self.words(),
    {
        match self {
            LaunchError::UnknownUser => "Cannot determine current user ID".to_owned(),
            LaunchError::Administrator => "LaunchAgents must be managed from the logged-in user session; do not use sudo".to_owned(),
            LaunchError::UnknownHome => "Cannot determine home directory".to_owned(),
        }
    }
}

/// The domain in which the service of a user runs.
pub fn user_launch_domain(uid: &str) -> (r: Result<String, LaunchError>)
    ensures
        if uid@.len() == 0 {
            r == Err::<String, LaunchError>(LaunchError::UnknownUser)
        } else if uid@ == "0"@ {
            r == Err::<String, LaunchError>(LaunchError::Administrator)
        } else {
            r is Ok && r->Ok_0@ == "gui/"@ + uid@
        },
{
    if uid.is_empty() {
        return Err(LaunchError::UnknownUser);
    }
    if same_text(uid, "0") {
        return Err(LaunchError::Administrator);
    }
    let mut out = "gui/".to_owned();
    out.push_str(uid);
    Ok(out)
}

/// The name of the service in a domain.
pub fn launch_target(domain: &str) -> (r: String)
    ensures
        r@ == domain@.push('/') + label(),
{
    let mut out = domain.to_owned();
    out.push('/');
    out.push_str("com.codex.unified-provider-sync");
    out
}

/// Where the description of the service is kept.
pub open spec fn plist_place(home: Seq<char>) -> Seq<char> {
    path_below(path_below(path_below(home, "Library"@), "LaunchAgents"@), label() + ".plist"@)
}

/// Where the description of the service is kept; an error where there is no home directory.
pub fn plist_path(home: Option<&str>) -> (r: Result<String, LaunchError>)
    ensures
        match home {
            Some(home) => r is Ok && r->Ok_0@ == plist_place(home@),
            None => r == Err::<String, LaunchError>(LaunchError::UnknownHome),
        },
{
    match home {
        Some(home) => {
            let library = join_path(home, "Library");
            let agents = join_path(library.as_str(), "LaunchAgents");
            let mut file = service_label();
            file.push_str(".plist");
            Ok(join_path(agents.as_str(), file.as_str()))
        },
        None => Err(LaunchError::UnknownHome),
    }
}

/// Whether the service is installed: whether its description is among the files that exist;
/// an error where there is no home directory.
pub fn launch_agent_installed(home: Option<&str>, plist_exists: bool) -> (r: Result<
    bool,
    LaunchError,
>)
    ensures
        r == (if home is Some {
            Ok::<bool, LaunchError>(plist_exists)
        } else {
            Err::<bool, LaunchError>(LaunchError::UnknownHome)
        }),
{
    match home {
        Some(_) => Ok(plist_exists),
        None => Err(LaunchError::UnknownHome),
    }
}

/// Why an action is refused on other systems; none on macOS.
pub fn ensure_macos(on_macos: bool, action: &str) -> (r: Result<(), String>)
    ensures
        on_macos ==> r is Ok,
        !on_macos ==> r is Err && r->Err_0@ == action@ + " is only supported on macOS"@,
{
    if on_macos {
        Ok(())
    } else {
        let mut out = action.to_owned();
        out.push_str(" is only supported on macOS");
        Err(out)
    }
}

// ---------------------------------------------------------------------------
// The description
// ---------------------------------------------------------------------------

/// A character as it stands in XML.
pub open spec fn xml_escaped_char(c: char) -> Seq<char> {
    if c == '&' {
        "&amp;"@
    } else if c == '<' {
        "&lt;"@
    } else if c == '>' {
        "&gt;"@
    } else if c == '"' {
        "&quot;"@
    } else if c == '\'' {
        "&apos;"@
    } else {
        seq![c]
    }
}

/// A text as it stands in XML.
pub open spec fn xml_escaped(s: Seq<char>) -> Seq<char>
    decreases s.len(),
{
    if s.len() == 0 {
        Seq::empty()
    } else {
        xml_escaped(s.drop_last()) + xml_escaped_char(s.last())
    }
}

/// A text as it stands in XML.
pub fn xml_escape(value: &str) -> (r: String)
    ensures
        r@ == xml_escaped(value@),
{
    let chars = chars_of(value);
    let mut out = String::new();
    let mut i: usize = 0;
    proof {
        assert(out@ =~= xml_escaped(chars@.take(0)));
    }
    while i < chars.len()
        invariant
            chars@ == value@,
            i <= chars@.len(),
            out@ == xml_escaped(chars@.take(i as int)),
        decreases chars@.len() - i,
    {
        let c = chars[i];
        let ghost before = out@;
        if c == '&' {
            out.push_str("&amp;");
        } else if c == '<' {
            out.push_str("&lt;");
        } else if c == '>' {
            out.push_str("&gt;");
        } else if c == '"' {
            out.push_str("&quot;");
        } else if c == '\'' {
            out.push_str("&apos;");
        } else {
            out.push(c);
        }
        proof {
            assert(chars@.take(i + 1).drop_last() =~= chars@.take(i as int));
            assert(chars@.take(i + 1).last() == c);
            assert(out@ =~= before + xml_escaped_char(c));
        }
        i += 1;
    }
    proof {
        assert(chars@.take(chars@.len() as int) =~= chars@);
    }
    out
}

/// An escaped text holds no character that would end the text or begin a tag.
pub proof fn escaped_text_is_text(s: Seq<char>)
    ensures
        forall|i: int|
            0 <= i < xml_escaped(s).len() ==> #[trigger] xml_escaped(s)[i] != '<' && xml_escaped(
                s,
            )[i] != '>' && xml_escaped(s)[i] != '"' && xml_escaped(s)[i] != '\'',
    decreases s.len(),
{
    if s.len() > 0 {
        escaped_text_is_text(s.drop_last());
        reveal_strlit("&amp;");
        reveal_strlit("&lt;");
        reveal_strlit("&gt;");
        reveal_strlit("&quot;");
        reveal_strlit("&apos;");
        let before = xml_escaped(s.drop_last());
        let last = xml_escaped_char(s.last());
        assert forall|i: int| 0 <= i < xml_escaped(s).len() implies #[trigger] xml_escaped(s)[i]
            != '<' && xml_escaped(s)[i] != '>' && xml_escaped(s)[i] != '"' && xml_escaped(s)[i]
            != '\'' by {
            if i < before.len() {
                assert(xml_escaped(s)[i] == before[i]);
            } else {
                assert(xml_escaped(s)[i] == last[i - before.len()]);
            }
        }
    }
}

/// The description of the service: it runs an automatic sync that refreshes logins when the
/// login or the configuration changes, when it is loaded, and once a day.
pub open spec fn plist_of(binary: Seq<char>, home: Seq<char>) -> Seq<char> {
    "<?xml version=\"1.0\" encoding=\"UTF-8\"?>\n<!DOCTYPE plist PUBLIC \"-//Apple//DTD PLIST 1.0//EN\" \"http://www.apple.com/DTDs/PropertyList-1.0.dtd\">\n<plist version=\"1.0\">\n<dict>\n    <key>Label</key>\n    <string>"@
        + label()
        + "</string>\n\n    <key>ProgramArguments</key>\n    <array>\n        <string>"@
        + xml_escaped(binary)
        + "</string>\n        <string>sync</string>\n        <string>--auto</string>\n        <string>--refresh-auth</string>\n    </array>\n\n    <key>WatchPaths</key>\n    <array>\n        <string>"@
        + xml_escaped(home) + "/.codex/auth.json</string>\n        <string>"@ + xml_escaped(home)
        + "/.codex/config.toml</string>\n    </array>\n\n    <key>RunAtLoad</key>\n    <true/>\n\n    <key>StartInterval</key>\n    <integer>86400</integer>\n\n    <key>StandardOutPath</key>\n    <string>"@
        + xml_escaped(home)
        + "/.codex/.ucp_sync_stdout.log</string>\n\n    <key>StandardErrorPath</key>\n    <string>"@
        + xml_escaped(home)
        + "/.codex/.ucp_sync_stderr.log</string>\n\n    <key>ThrottleInterval</key>\n    <integer>5</integer>\n</dict>\n</plist>\n"@
}

/// The description of the service.
pub fn render_plist(binary: &str, home: &str) -> (r: String)
    ensures
        r@ == plist_of(binary@, home@),
{
    let home = xml_escape(home);
    let mut out = "<?xml version=\"1.0\" encoding=\"UTF-8\"?>\n<!DOCTYPE plist PUBLIC \"-//Apple//DTD PLIST 1.0//EN\" \"http://www.apple.com/DTDs/PropertyList-1.0.dtd\">\n<plist version=\"1.0\">\n<dict>\n    <key>Label</key>\n    <string>".to_owned();
    out.push_str("com.codex.unified-provider-sync");
    out.push_str("</string>\n\n    <key>ProgramArguments</key>\n    <array>\n        <string>");
    out.push_str(xml_escape(binary).as_str());
    out.push_str(
        "</string>\n        <string>sync</string>\n        <string>--auto</string>\n        <string>--refresh-auth</string>\n    </array>\n\n    <key>WatchPaths</key>\n    <array>\n        <string>",
    );
    out.push_str(home.as_str());
    out.push_str("/.codex/auth.json</string>\n        <string>");
    out.push_str(home.as_str());
    out.push_str(
        "/.codex/config.toml</string>\n    </array>\n\n    <key>RunAtLoad</key>\n    <true/>\n\n    <key>StartInterval</key>\n    <integer>86400</integer>\n\n    <key>StandardOutPath</key>\n    <string>",
    );
    out.push_str(home.as_str());
    out.push_str(
        "/.codex/.ucp_sync_stdout.log</string>\n\n    <key>StandardErrorPath</key>\n    <string>",
    );
    out.push_str(home.as_str());
    out.push_str(
        "/.codex/.ucp_sync_stderr.log</string>\n\n    <key>ThrottleInterval</key>\n    <integer>5</integer>\n</dict>\n</plist>\n",
    );
    out
}

// ---------------------------------------------------------------------------
// Managing the service
// ---------------------------------------------------------------------------

/// Where the service of a user is found.
#[derive(Debug, PartialEq, Eq)]
pub struct LaunchPlace {
    pub domain: String,
    pub target: String,
    pub plist_path: String,
}

/// Why the service of a user cannot be managed: on other systems never, then not for nobody
/// or the administrator, then not without a home directory.
pub open spec fn launch_refusal(
    on_macos: bool,
    action: Seq<char>,
    uid: Seq<char>,
    home: Option<&str>,
) -> Option<Seq<char>> {
    if !on_macos {
        Some(action + " is only supported on macOS"@)
    } else if uid.len() == 0 {
        Some(LaunchError::UnknownUser.words())
    } else if uid == "0"@ {
        Some(LaunchError::Administrator.words())
    } else if home is None {
        Some(LaunchError::UnknownHome.words())
    } else {
        None
    }
}

/// Whether a place is that of the service of a user.
pub open spec fn is_launch_place(place: LaunchPlace, uid: Seq<char>, home: Seq<char>) -> bool {
    &&& place.domain@ == "gui/"@ + uid
    &&& place.target@ == ("gui/"@ + uid).push('/') + label()
    &&& place.plist_path@ == plist_place(home)
}

fn launch_place(on_macos: bool, action: &str, uid: &str, home: Option<&str>) -> (r: Result<
    LaunchPlace,
    String,
>)
    ensures
        match launch_refusal(on_macos, action@, uid@, home) {
            Some(words) => r is Err && r->Err_0@ == words,
            None => r is Ok && is_launch_place(r->Ok_0, uid@, home->0@),
        },
{
    if let Err(refusal) = ensure_macos(on_macos, action) {
        return Err(refusal);
    }
    let domain = match user_launch_domain(uid) {
        Ok(domain) => domain,
        Err(error) => {
            return Err(error.message());
        },
    };
    match plist_path(home) {
        Ok(path) => {
            let target = launch_target(domain.as_str());
            Ok(LaunchPlace { domain, target, plist_path: path })
        },
        Err(error) => Err(error.message()),
    }
}

/// Where the service of a user is installed, and its description.
pub fn install_launch_agent(on_macos: bool, uid: &str, home: Option<&str>, binary: &str) -> (r:
    Result<(LaunchPlace, String), String>)
    ensures
        match launch_refusal(on_macos, "installing the LaunchAgent"@, uid@, home) {
            Some(words) => r is Err && r->Err_0@ == words,
            None => r is Ok && is_launch_place((r->Ok_0).0, uid@, home->0@) && (r->Ok_0).1@
                == plist_of(binary@, home->0@),
        },
{
    match launch_place(on_macos, "installing the LaunchAgent", uid, home) {
        Ok(place) => {
            let plist = match home {
                Some(home) => render_plist(binary, home),
                None => String::new(),
            };
            Ok((place, plist))
        },
        Err(refusal) => Err(refusal),
    }
}

/// Where the service of a user is removed.
pub fn uninstall_launch_agent(on_macos: bool, uid: &str, home: Option<&str>) -> (r: Result<
    LaunchPlace,
    String,
>)
    ensures
        match launch_refusal(on_macos, "uninstalling the LaunchAgent"@, uid@, home) {
            Some(words) => r is Err && r->Err_0@ == words,
            None => r is Ok && is_launch_place(r->Ok_0, uid@, home->0@),
        },
{
    launch_place(on_macos, "uninstalling the LaunchAgent", uid, home)
}

/// Where the service of a user is looked for.
pub fn show_launch_agent_status(on_macos: bool, uid: &str, home: Option<&str>) -> (r: Result<
    LaunchPlace,
    String,
>)
    ensures
        match launch_refusal(on_macos, "checking the LaunchAgent"@, uid@, home) {
            Some(words) => r is Err && r->Err_0@ == words,
            None => r is Ok && is_launch_place(r->Ok_0, uid@, home->0@),
        },
{
    launch_place(on_macos, "checking the LaunchAgent", uid, home)
}

/// The word for an answer.
pub open spec fn answer(yes: bool) -> Seq<char> {
    if yes {
        "yes"@
    } else {
        "no"@
    }
}

/// What is said of the service.
pub fn status_lines(plist_path: &str, installed: bool, loaded: bool) -> (r: Vec<String>)
    ensures
        views(r@) == seq![
            "LaunchAgent: "@ + label(),
            "Plist: "@ + plist_path@,
            "Installed: "@ + answer(installed),
            "Loaded: "@ + answer(loaded),
        ],
{
    let mut label_line = "LaunchAgent: ".to_owned();
    label_line.push_str("com.codex.unified-provider-sync");
    let mut plist_line = "Plist: ".to_owned();
    plist_line.push_str(plist_path);
    let mut installed_line = "Installed: ".to_owned();
    installed_line.push_str(if installed {
        "yes"
    } else {
        "no"
    });
    let mut loaded_line = "Loaded: ".to_owned();
    loaded_line.push_str(if loaded {
        "yes"
    } else {
        "no"
    });
    let mut out: Vec<String> = Vec::new();
    out.push(label_line);
    out.push(plist_line);
    out.push(installed_line);
    out.push(loaded_line);
    proof {
        assert(views(out@) =~= seq![
            "LaunchAgent: "@ + label(),
            "Plist: "@ + plist_path@,
            "Installed: "@ + answer(installed),
            "Loaded: "@ + answer(loaded),
        ]);
    }
    out
}

} // verus!
