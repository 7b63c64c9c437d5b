//! The files that register the gateway as a user-level background service: a systemd user unit on
//! Linux, a launchd user agent on macOS.
use vstd::prelude::*;
use vstd::string::*;

use crate::text::{
    contains, in_turn, law_replacing_spares_the_rest, lemma_four, lemma_one, lemma_three, lemma_two,
    occurs_at, opt_view, replace_all, replaced,
};

verus! {

/// The name of the launchd agent.
pub const LABEL: &'static str = "com.kumo.agent";

/// A text as it stands in XML.
pub open spec fn escaped_xml(value: Seq<char>) -> Seq<char> {
    replace_all(
        replace_all(replace_all(value, "&"@, "&amp;"@), "<"@, "&lt;"@),
        ">"@,
        "&gt;"@,
    )
}

/// A plist is XML, and both a `PATH` entry and a home directory can legally contain `&` or `<`.
pub fn xml_escape(value: &str) -> (r: String)
    ensures
        r@ == escaped_xml(value@),
{
    proof {
        reveal_strlit("&");
        reveal_strlit("<");
        reveal_strlit(">");
    }
    replaced(
        replaced(replaced(value, "&", "&amp;").as_str(), "<", "&lt;").as_str(),
        ">",
        "&gt;",
    )
}

/// The unit that runs the agent under systemd.
pub open spec fn unit_text(exe: Seq<char>, path: Option<Seq<char>>) -> Seq<char> {
    "[Unit]\nDescription=Kumo personal agent gateway\nAfter=network-online.target\nWants=network-online.target\n\n[Service]\nExecStart="@
        + exe + " run\n"@ + (match path {
        Some(path) => "Environment=PATH="@ + path + "\n"@,
        None => seq![],
    }) + "Restart=on-failure\nRestartSec=5\n\n[Install]\nWantedBy=default.target\n"@
}

/// The systemd user unit that runs `exe`, with `path` as its search path where one is given:
/// systemd does not inherit a login shell's environment, and the MCP servers that the gateway
/// spawns typically live outside of the bare default path.
pub fn systemd_unit(exe: &str, path: Option<&str>) -> (r: String)
    ensures
        r@ == unit_text(exe@, opt_view(path)),
{
    let mut r =
        "[Unit]\nDescription=Kumo personal agent gateway\nAfter=network-online.target\nWants=network-online.target\n\n[Service]\nExecStart=".to_owned();
    r.push_str(exe);
    r.push_str(" run\n");
    let ghost head = r@;
    if let Some(path) = path {
        r.push_str("Environment=PATH=");
        r.push_str(path);
        r.push_str("\n");
    }
    assert(r@ =~= head + (match path {
        Some(path) => "Environment=PATH="@ + path@ + "\n"@,
        None => seq![],
    }));
    r.push_str("Restart=on-failure\nRestartSec=5\n\n[Install]\nWantedBy=default.target\n");
    r
}

/// The description that runs the agent under launchd.
pub open spec fn plist_text(exe: Seq<char>, log: Seq<char>, path: Option<Seq<char>>) -> Seq<char> {
    "<?xml version=\"1.0\" encoding=\"UTF-8\"?>\n<!DOCTYPE plist PUBLIC \"-//Apple//DTD PLIST 1.0//EN\" \"http://www.apple.com/DTDs/PropertyList-1.0.dtd\">\n<plist version=\"1.0\">\n<dict>\n    <key>Label</key>\n    <string>"@
            + LABEL@
            + "</string>\n    <key>ProgramArguments</key>\n    <array>\n        <string>"@
            + escaped_xml(exe) + "</string>\n        <string>run</string>\n    </array>\n"@ + (
        match path {
            Some(path) => "    <key>EnvironmentVariables</key>\n    <dict>\n        <key>PATH</key>\n        <string>"@
                + escaped_xml(path) + "</string>\n    </dict>\n"@,
            None => seq![],
        })
            + "    <key>RunAtLoad</key>\n    <true/>\n    <key>KeepAlive</key>\n    <dict>\n        <key>SuccessfulExit</key>\n        <false/>\n    </dict>\n    <key>StandardOutPath</key>\n    <string>"@
            + escaped_xml(log)
            + "</string>\n    <key>StandardErrorPath</key>\n    <string>"@ + escaped_xml(log)
            + "</string>\n</dict>\n</plist>\n"@
}

/// The launchd user agent that runs `exe` and logs to `log`, with `path` as its search path where
/// one is given.
pub fn launchd_plist(exe: &str, log: &str, path: Option<&str>) -> (r: String)
    ensures
        r@ == plist_text(exe@, log@, opt_view(path)),
{
    let mut r =
        "<?xml version=\"1.0\" encoding=\"UTF-8\"?>\n<!DOCTYPE plist PUBLIC \"-//Apple//DTD PLIST 1.0//EN\" \"http://www.apple.com/DTDs/PropertyList-1.0.dtd\">\n<plist version=\"1.0\">\n<dict>\n    <key>Label</key>\n    <string>".to_owned();
    r.push_str(LABEL);
    r.push_str("</string>\n    <key>ProgramArguments</key>\n    <array>\n        <string>");
    r.push_str(xml_escape(exe).as_str());
    r.push_str("</string>\n        <string>run</string>\n    </array>\n");
    let ghost head = r@;
    if let Some(path) = path {
        r.push_str(
            "    <key>EnvironmentVariables</key>\n    <dict>\n        <key>PATH</key>\n        <string>",
        );
        r.push_str(xml_escape(path).as_str());
        r.push_str("</string>\n    </dict>\n");
    }
    assert(r@ =~= head + (match path {
        Some(path) => "    <key>EnvironmentVariables</key>\n    <dict>\n        <key>PATH</key>\n        <string>"@
            + escaped_xml(path@) + "</string>\n    </dict>\n"@,
        None => seq![],
    }));
    r.push_str(
        "    <key>RunAtLoad</key>\n    <true/>\n    <key>KeepAlive</key>\n    <dict>\n        <key>SuccessfulExit</key>\n        <false/>\n    </dict>\n    <key>StandardOutPath</key>\n    <string>",
    );
    r.push_str(xml_escape(log).as_str());
    r.push_str("</string>\n    <key>StandardErrorPath</key>\n    <string>");
    r.push_str(xml_escape(log).as_str());
    r.push_str("</string>\n</dict>\n</plist>\n");
    r
}

/// A unit runs the program it was made for, under the search path that was given.
pub proof fn law_units_run_their_program(exe: Seq<char>, path: Seq<char>)
    ensures
        in_turn(unit_text(exe, None), seq!["ExecStart="@ + exe + " run\n"@]),
        in_turn(
            unit_text(exe, Some(path)),
            seq!["ExecStart="@ + exe + " run\n"@, "Environment=PATH="@ + path + "\n"@],
        ),
{
    let head = "[Unit]\nDescription=Kumo personal agent gateway\nAfter=network-online.target\nWants=network-online.target\n\n[Service]\n"@;
    let start = "[Unit]\nDescription=Kumo personal agent gateway\nAfter=network-online.target\nWants=network-online.target\n\n[Service]\nExecStart="@;
    let foot = "Restart=on-failure\nRestartSec=5\n\n[Install]\nWantedBy=default.target\n"@;
    reveal_strlit(
        "[Unit]\nDescription=Kumo personal agent gateway\nAfter=network-online.target\nWants=network-online.target\n\n[Service]\n",
    );
    reveal_strlit(
        "[Unit]\nDescription=Kumo personal agent gateway\nAfter=network-online.target\nWants=network-online.target\n\n[Service]\nExecStart=",
    );
    reveal_strlit("ExecStart=");
    assert(start =~= head + "ExecStart="@);
    let run = "ExecStart="@ + exe + " run\n"@;
    let environment = "Environment=PATH="@ + path + "\n"@;
    let empty: Seq<char> = seq![];
    lemma_one(head, run, foot);
    assert(unit_text(exe, None) =~= head + run + foot);
    lemma_two(head, run, empty, environment, foot);
    assert(unit_text(exe, Some(path)) =~= head + run + empty + environment + foot);
}

/// An agent's description runs the program it was made for, under the search path that was given, and
/// writes to the log that was given, each as it may stand in such a file.
pub proof fn law_agents_run_their_program(exe: Seq<char>, log: Seq<char>, path: Seq<char>)
    ensures
        in_turn(
            plist_text(exe, log, Some(path)),
            seq![escaped_xml(exe), escaped_xml(path), escaped_xml(log), escaped_xml(log)],
        ),
        in_turn(
            plist_text(exe, log, None),
            seq![escaped_xml(exe), escaped_xml(log), escaped_xml(log)],
        ),
{
    let head = "<?xml version=\"1.0\" encoding=\"UTF-8\"?>\n<!DOCTYPE plist PUBLIC \"-//Apple//DTD PLIST 1.0//EN\" \"http://www.apple.com/DTDs/PropertyList-1.0.dtd\">\n<plist version=\"1.0\">\n<dict>\n    <key>Label</key>\n    <string>"@
        + LABEL@ + "</string>\n    <key>ProgramArguments</key>\n    <array>\n        <string>"@;
    let behind = "</string>\n        <string>run</string>\n    </array>\n"@;
    let open = "    <key>EnvironmentVariables</key>\n    <dict>\n        <key>PATH</key>\n        <string>"@;
    let shut = "</string>\n    </dict>\n"@;
    let middle = "    <key>RunAtLoad</key>\n    <true/>\n    <key>KeepAlive</key>\n    <dict>\n        <key>SuccessfulExit</key>\n        <false/>\n    </dict>\n    <key>StandardOutPath</key>\n    <string>"@;
    let between = "</string>\n    <key>StandardErrorPath</key>\n    <string>"@;
    let foot = "</string>\n</dict>\n</plist>\n"@;
    let (program, search, output) = (escaped_xml(exe), escaped_xml(path), escaped_xml(log));
    lemma_four(head, program, behind + open, search, shut + middle, output, between, output, foot);
    assert(plist_text(exe, log, Some(path)) =~= head + program + (behind + open) + search + (shut
        + middle) + output + between + output + foot);
    lemma_three(head, program, behind + middle, output, between, output, foot);
    assert(plist_text(exe, log, None) =~= head + program + (behind + middle) + output + between
        + output + foot);
}

/// What is escaped holds none of the signs that mark up such a file, and what had none of them is
/// left as it is.
pub proof fn law_escaped_texts_hold_no_markup(value: Seq<char>)
    ensures
        !escaped_xml(value).contains('<'),
        !escaped_xml(value).contains('>'),
        !value.contains('&') && !value.contains('<') && !value.contains('>') ==> escaped_xml(value)
            == value,
{
    reveal_strlit("&");
    reveal_strlit("&amp;");
    reveal_strlit("<");
    reveal_strlit("&lt;");
    reveal_strlit(">");
    reveal_strlit("&gt;");
    assert("&"@ =~= seq!['&'] && "<"@ =~= seq!['<'] && ">"@ =~= seq!['>']);
    assert(!"&lt;"@.contains('<'));
    assert(!"&gt;"@.contains('<'));
    assert(!"&gt;"@.contains('>'));
    let one = replace_all(value, "&"@, "&amp;"@);
    let two = replace_all(one, "<"@, "&lt;"@);
    lemma_replaced_lacks(one, '<', "&lt;"@, '<');
    lemma_replaced_lacks(two, '>', "&gt;"@, '<');
    lemma_replaced_lacks(two, '>', "&gt;"@, '>');
    if !value.contains('&') && !value.contains('<') && !value.contains('>') {
        lemma_sign_absent(value, '&');
        law_replacing_spares_the_rest(value, "&"@, "&amp;"@);
        lemma_sign_absent(value, '<');
        law_replacing_spares_the_rest(value, "<"@, "&lt;"@);
        lemma_sign_absent(value, '>');
        law_replacing_spares_the_rest(value, ">"@, "&gt;"@);
    }
}

proof fn lemma_sign_absent(s: Seq<char>, c: char)
    requires
        !s.contains(c),
    ensures
        !contains(s, seq![c]),
{
    if contains(s, seq![c]) {
        let at = choose|at: int| occurs_at(s, seq![c], at);
        assert(s.subrange(at, at + 1)[0] == s[at]);
        assert(s.contains(s[at]));
    }
}

/// A sign that stands neither in the text, unless it is the one that is replaced, nor in what takes
/// its place, is not in the result.
proof fn lemma_replaced_lacks(s: Seq<char>, sign: char, with: Seq<char>, c: char)
    requires
        !with.contains(c),
        c == sign || !s.contains(c),
    ensures
        !replace_all(s, seq![sign], with).contains(c),
    decreases s.len(),
{
    let part = seq![sign];
    let all = replace_all(s, part, with);
    if s.len() >= 1 {
        let rest = s.skip(1);
        assert(c == sign || !rest.contains(c)) by {
            if c != sign && rest.contains(c) {
                let k = choose|k: int| 0 <= k < rest.len() && rest[k] == c;
                assert(s[k + 1] == c);
            }
        }
        lemma_replaced_lacks(rest, sign, with, c);
        let tail = replace_all(rest, part, with);
        assert(s.subrange(0, 1) =~= seq![s[0]]);
        if occurs_at(s, part, 0) {
            assert(all == with + tail);
            assert forall|k: int| 0 <= k < all.len() implies all[k] != c by {
                if k < with.len() {
                    assert(with.contains(with[k]));
                } else {
                    assert(tail.contains(tail[k - with.len()]));
                }
            }
        } else {
            assert(s[0] != sign) by {
                if s[0] == sign {
                    assert(s.subrange(0, 1) =~= part);
                }
            }
            assert(s.contains(s[0]));
            assert(all == seq![s[0]] + tail);
            assert forall|k: int| 0 <= k < all.len() implies all[k] != c by {
                if k > 0 {
                    assert(tail.contains(tail[k - 1]));
                }
            }
        }
    }
}

} // verus!
