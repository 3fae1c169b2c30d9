//! The entries that start the application with the system.
use vstd::prelude::*;
use crate::text::chars_of;

verus! {

/// The texts of the characters of a text, one after the other.
pub open spec fn spelled(s: Seq<char>, each: spec_fn(char) -> Seq<char>) -> Seq<char>
    decreases s.len(),
{
    if s.len() == 0 {
        Seq::empty()
    } else {
        spelled(s.drop_last(), each) + each(s.last())
    }
}

/// How a character is written in XML.
pub open spec fn xml_char(c: char) -> Seq<char> {
    if c == '&' {
        "&amp;"@
    } else if c == '<' {
        "&lt;"@
    } else if c == '>' {
        "&gt;"@
    } else if c == '"' {
        "&quot;"@
    } else if c == '\'' {
        "&apos;"@
    } else {
        seq![c]
    }
}

/// A text as XML holds it.
pub open spec fn xml_text(s: Seq<char>) -> Seq<char> {
    spelled(s, |c: char| xml_char(c))
}

/// Writes a text so that XML can hold it.
pub fn xml_escape(value: &str) -> (s: String)
    ensures
        s@ == xml_text(value@),
{
    let v = chars_of(value);
    let mut s: String = String::new();
    let mut i: usize = 0;
    assert(s@ =~= Seq::empty());
    while i < v.len()
        invariant
            0 <= i <= v@.len(),
            v@ == value@,
            s@ == xml_text(v@.take(i as int)),
        decreases v@.len() - i,
    {
        let c: char = v[i];
        let ghost before = s@;
        assert(v@.take(i as int + 1).drop_last() =~= v@.take(i as int));
        match c {
            '&' => s.append("&amp;"),
            '<' => s.append("&lt;"),
            '>' => s.append("&gt;"),
            '"' => s.append("&quot;"),
            '\'' => s.append("&apos;"),
            _ => s.push(c),
        }
        assert(s@ =~= before + xml_char(c));
        i += 1;
    }
    assert(v@.take(v@.len() as int) =~= v@);
    s
}

/// How a character is written between the quotes of a desktop entry's command.
pub open spec fn exec_char(c: char) -> Seq<char> {
    if c == '\\' || c == '"' {
        seq!['\\', c]
    } else {
        seq![c]
    }
}

/// A text as it stands between the quotes of a desktop entry's command.
pub open spec fn exec_text(s: Seq<char>) -> Seq<char> {
    spelled(s, |c: char| exec_char(c))
}

/// Writes a text so that it can stand between the quotes of a desktop entry's command.
pub fn desktop_exec_escape(value: &str) -> (s: String)
    ensures
        s@ == exec_text(value@),
{
    let v = chars_of(value);
    let mut s: String = String::new();
    let mut i: usize = 0;
    assert(s@ =~= Seq::empty());
    while i < v.len()
        invariant
            0 <= i <= v@.len(),
            v@ == value@,
            s@ == exec_text(v@.take(i as int)),
        decreases v@.len() - i,
    {
        let c: char = v[i];
        let ghost before = s@;
        assert(v@.take(i as int + 1).drop_last() =~= v@.take(i as int));
        if c == '\\' || c == '"' {
            s.push('\\');
        }
        s.push(c);
        assert(s@ =~= before + exec_char(c));
        i += 1;
    }
    assert(v@.take(v@.len() as int) =~= v@);
    s
}

/// The text of the launch agent that starts a program.
pub fn launch_agent(executable: &str) -> (s: String)
    ensures
        s@ == "<?xml version=\"1.0\" encoding=\"UTF-8\"?>\n<!DOCTYPE plist PUBLIC \"-//Apple//DTD PLIST 1.0//EN\" \"http://www.apple.com/DTDs/PropertyList-1.0.dtd\">\n<plist version=\"1.0\"><dict>\n<key>Label</key><string>live.stardive.wire</string>\n<key>ProgramArguments</key><array><string>"@
            + xml_text(executable@)
            + "</string></array>\n<key>RunAtLoad</key><true/>\n</dict></plist>\n"@,
{
    let mut s: String =
        "<?xml version=\"1.0\" encoding=\"UTF-8\"?>\n<!DOCTYPE plist PUBLIC \"-//Apple//DTD PLIST 1.0//EN\" \"http://www.apple.com/DTDs/PropertyList-1.0.dtd\">\n<plist version=\"1.0\"><dict>\n<key>Label</key><string>live.stardive.wire</string>\n<key>ProgramArguments</key><array><string>".to_owned();
    s.append(xml_escape(executable).as_str());
    s.append("</string></array>\n<key>RunAtLoad</key><true/>\n</dict></plist>\n");
    s
}

/// The text of the desktop entry that starts a program.
pub fn desktop_entry(executable: &str) -> (s: String)
    ensures
        s@ == "[Desktop Entry]\nType=Application\nName=Wire\nExec=\""@ + exec_text(executable@)
            + "\"\nTerminal=false\nX-GNOME-Autostart-enabled=true\n"@,
{
    let mut s: String = "[Desktop Entry]\nType=Application\nName=Wire\nExec=\"".to_owned();
    s.append(desktop_exec_escape(executable).as_str());
    s.append("\"\nTerminal=false\nX-GNOME-Autostart-enabled=true\n");
    s
}

/// The command that the Windows registry starts.
pub fn run_command(executable: &str) -> (s: String)
    ensures
        s@ == "\""@ + executable@ + "\""@,
{
    let mut s: String = "\"".to_owned();
    s.append(executable);
    s.append("\"");
    s
}

/// Whether the entry is off after a deletion was tried. One that failed because the entry was
/// not there is no failure: whether the entry can still be found decides, in every language of
/// the system.
pub fn entry_is_off(deleted: bool, still_found: bool) -> (r: bool)
    ensures
        r == (deleted || !still_found),
{
    deleted || !still_found
}

/// Whether an entry in a file is off after its removal was tried.
pub fn file_entry_is_off(removed: bool, was_missing: bool) -> (r: bool)
    ensures
        r == (removed || was_missing),
{
    removed || was_missing
}

// ---------------------------------------------------------------------------
// Laws
// ---------------------------------------------------------------------------

/// Text written for XML holds no character that would end the element or open another.
pub proof fn law_xml_text_is_inert(s: Seq<char>, i: int)
    requires
        0 <= i < xml_text(s).len(),
    ensures
        xml_text(s)[i] != '<',
        xml_text(s)[i] != '>',
        xml_text(s)[i] != '"',
        xml_text(s)[i] != '\'',
    decreases s.len(),
{
    reveal_strlit("&amp;");
    reveal_strlit("&lt;");
    reveal_strlit("&gt;");
    reveal_strlit("&quot;");
    reveal_strlit("&apos;");
    if s.len() > 0 {
        let head = xml_text(s.drop_last());
        if i < head.len() {
            law_xml_text_is_inert(s.drop_last(), i);
        } else {
            assert(xml_text(s)[i] == xml_char(s.last())[i - head.len()]);
        }
    }
}

/// What a quoted command means: a backslash stands for the character after it.
pub open spec fn unquoted(s: Seq<char>) -> Seq<char>
    decreases s.len(),
{
    if s.len() == 0 {
        Seq::empty()
    } else if s[0] == '\\' && s.len() > 1 {
        seq![s[1]] + unquoted(s.skip(2))
    } else {
        seq![s[0]] + unquoted(s.skip(1))
    }
}

/// A command written for a desktop entry is read back as it was.
pub proof fn law_desktop_command_is_read_back(s: Seq<char>)
    ensures
        unquoted(exec_text(s)) == s,
    decreases s.len(),
{
    if s.len() == 0 {
        assert(s =~= Seq::empty());
    } else {
        let rest = s.skip(1);
        lemma_spelled_first(s, |c: char| exec_char(c));
        law_desktop_command_is_read_back(rest);
        let whole = exec_text(s);
        let first = exec_char(s[0]);
        assert(whole == first + exec_text(rest));
        assert(whole.skip(first.len() as int) =~= exec_text(rest));
        assert(whole[0] == first[0]);
        if first.len() == 2 {
            assert(whole[1] == s[0]);
        }
        assert(seq![s[0]] + rest =~= s);
    }
}

proof fn lemma_spelled_first(s: Seq<char>, each: spec_fn(char) -> Seq<char>)
    requires
        s.len() > 0,
    ensures
        spelled(s, each) == each(s[0]) + spelled(s.skip(1), each),
    decreases s.len(),
{
    if s.len() == 1 {
        assert(s.drop_last() =~= Seq::empty());
        assert(s.skip(1) =~= Seq::empty());
        assert(spelled(s, each) =~= each(s[0]) + spelled(s.skip(1), each));
    } else {
        lemma_spelled_first(s.drop_last(), each);
        assert(s.drop_last().skip(1) =~= s.skip(1).drop_last());
        assert(spelled(s, each) =~= each(s[0]) + spelled(s.skip(1), each));
    }
}

/// What XML text means: an entity stands for its character.
pub open spec fn xml_read(s: Seq<char>) -> Seq<char>
    decreases s.len(),
{
    if s.len() == 0 {
        Seq::empty()
    } else if s[0] == '&' && s.len() >= 6 && s.take(6) == "&quot;"@ {
        seq!['"'] + xml_read(s.skip(6))
    } else if s[0] == '&' && s.len() >= 6 && s.take(6) == "&apos;"@ {
        seq!['\''] + xml_read(s.skip(6))
    } else if s[0] == '&' && s.len() >= 5 && s.take(5) == "&amp;"@ {
        seq!['&'] + xml_read(s.skip(5))
    } else if s[0] == '&' && s.len() >= 4 && s.take(4) == "&lt;"@ {
        seq!['<'] + xml_read(s.skip(4))
    } else if s[0] == '&' && s.len() >= 4 && s.take(4) == "&gt;"@ {
        seq!['>'] + xml_read(s.skip(4))
    } else {
        seq![s[0]] + xml_read(s.skip(1))
    }
}

/// A text written for XML is read back as it was.
pub proof fn law_xml_text_is_read_back(s: Seq<char>)
    ensures
        xml_read(xml_text(s)) == s,
    decreases s.len(),
{
    if s.len() == 0 {
        assert(s =~= Seq::empty());
    } else {
        let rest = s.skip(1);
        lemma_spelled_first(s, |c: char| xml_char(c));
        law_xml_text_is_read_back(rest);
        let whole = xml_text(s);
        let first = xml_char(s[0]);
        let tail = xml_text(rest);
        assert(whole == first + tail);
        assert(whole.skip(first.len() as int) =~= tail);
        assert(whole.take(first.len() as int) =~= first);
        reveal_strlit("&quot;");
        reveal_strlit("&apos;");
        reveal_strlit("&amp;");
        reveal_strlit("&lt;");
        reveal_strlit("&gt;");
        assert(whole[0] == first[0]);
        if first.len() > 1 {
            assert(whole[1] == first[1] && whole[2] == first[2]);
            if whole.len() >= 6 {
                assert(whole.take(6)[1] == whole[1] && whole.take(6)[2] == whole[2]);
            }
            if whole.len() >= 5 {
                assert(whole.take(5)[1] == whole[1] && whole.take(5)[2] == whole[2]);
            }
            assert(whole.take(4)[1] == whole[1] && whole.take(4)[2] == whole[2]);
        }
        assert(seq![s[0]] + rest =~= s);
    }
}

} // verus!
