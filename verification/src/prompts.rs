//! Dialogs on the Mac: the scripts that show them, and what is read out of their
//! answers.

use vstd::prelude::*;
use vstd::string::*;

use crate::text::{
    after_first_line, chars_of, contains, contains_text, decode_text, first_line, is_space,
    law_a_line_ends_at_its_end, law_only_line_ends_are_taken_away,
    law_trimming_takes_only_outer_space, occurrence, split_line,
    string_of, trim, trim_line_ends, trim_text, trimmed, utf8_decoded, without_line_ends,
};

verus! {

pub const SETUP_TITLE: &'static str = "m5mic Bluetooth Wi-Fi Setup";

pub const CODE_MESSAGE: &'static str =
    "Put the Stick in setup mode, then enter the large 8-digit code shown on its screen:";

pub const MANUAL_SSID_MESSAGE: &'static str =
    "Could not read the current Wi-Fi network from macOS. Enter the Wi-Fi network name for the M5StickS3:";

pub const INSTALLED_DRIVER_PATH: &'static str = "/Library/Audio/Plug-Ins/HAL/m5mic.driver";

pub const INSTALLED_DRIVER_DIR: &'static str = "/Library/Audio/Plug-Ins/HAL";

/// How a character is written in a string of a script.
pub open spec fn script_char(c: char) -> Seq<char> {
    if c == '\\' {
        seq!['\\', '\\']
    } else if c == '"' {
        seq!['\\', '"']
    } else {
        seq![c]
    }
}

pub open spec fn script_chars(s: Seq<char>) -> Seq<char>
    decreases s.len(),
{
    if s.len() == 0 {
        Seq::empty()
    } else {
        script_char(s[0]) + script_chars(s.drop_first())
    }
}

/// Text as a string of a script.
pub open spec fn script_string(s: Seq<char>) -> Seq<char> {
    seq!['"'] + script_chars(s) + seq!['"']
}

/// What the inside of a script's string stands for: a backslash stands for the
/// character behind it.
pub open spec fn script_meaning(s: Seq<char>) -> Seq<char>
    decreases s.len(),
{
    if s.len() == 0 {
        Seq::empty()
    } else if s[0] == '\\' && s.len() > 1 {
        seq![s[1]] + script_meaning(s.skip(2))
    } else {
        seq![s[0]] + script_meaning(s.drop_first())
    }
}

/// Whether the string that begins in front of `s` goes on to the end of `s`: no
/// quotation mark ends it before.
pub open spec fn stays_quoted(s: Seq<char>) -> bool
    decreases s.len(),
{
    if s.len() == 0 {
        true
    } else if s[0] == '\\' {
        s.len() > 1 && stays_quoted(s.skip(2))
    } else {
        s[0] != '"' && stays_quoted(s.drop_first())
    }
}

/// Text put into a script stands for itself and cannot end the string that it is
/// put into.
pub proof fn law_script_strings_mean_their_text(s: Seq<char>)
    ensures
        script_meaning(script_chars(s)) == s,
        stays_quoted(script_chars(s)),
    decreases s.len(),
{
    if s.len() > 0 {
        let rest = script_chars(s.drop_first());
        let whole = script_chars(s);
        law_script_strings_mean_their_text(s.drop_first());
        if s[0] == '\\' || s[0] == '"' {
            assert(whole.skip(2) =~= rest);
            assert(script_meaning(whole) =~= s);
        } else {
            assert(whole.drop_first() =~= rest);
            assert(script_meaning(whole) =~= s);
        }
    } else {
        assert(script_meaning(script_chars(s)) =~= s);
    }
}

pub fn applescript_string(value: &str) -> (quoted: String)
    ensures
        quoted@ == script_string(value@),
{
    let chars = chars_of(value);
    let mut quoted = String::new();
    quoted.push('"');
    let mut i: usize = 0;
    assert(value@.skip(0) =~= value@);
    assert(quoted@ + script_chars(value@) =~= seq!['"'] + script_chars(value@));
    while i < chars.len()
        invariant
            i <= chars@.len(),
            chars@ == value@,
            quoted@ + script_chars(value@.skip(i as int)) == seq!['"'] + script_chars(value@),
        decreases chars@.len() - i,
    {
        let c: char = chars[i];
        let ghost before = quoted@;
        let ghost rest = value@.skip(i as int);
        assert(rest.drop_first() =~= value@.skip(i + 1));
        if c == '\\' {
            quoted.push('\\');
            quoted.push('\\');
        } else if c == '"' {
            quoted.push('\\');
            quoted.push('"');
        } else {
            quoted.push(c);
        }
        assert(quoted@ =~= before + script_char(c));
        assert(quoted@ + script_chars(value@.skip(i + 1)) =~= before + script_chars(rest));
        i += 1;
    }
    assert(value@.skip(i as int) =~= Seq::<char>::empty());
    assert(quoted@ =~= seq!['"'] + script_chars(value@));
    quoted.push('"');
    assert(quoted@ =~= script_string(value@));
    quoted
}

/// How a character is written inside a quoted word of a shell: a quotation mark
/// ends the quotation, follows on its own, and begins it again.
pub open spec fn shell_char(c: char) -> Seq<char> {
    if c == '\'' {
        seq!['\'', '\\', '\'', '\'']
    } else {
        seq![c]
    }
}

pub open spec fn shell_chars(s: Seq<char>) -> Seq<char>
    decreases s.len(),
{
    if s.len() == 0 {
        Seq::empty()
    } else {
        shell_char(s[0]) + shell_chars(s.drop_first())
    }
}

/// Text as a word of a shell.
pub open spec fn shell_word(s: Seq<char>) -> Seq<char> {
    seq!['\''] + shell_chars(s) + seq!['\'']
}

/// What a shell reads in `s`, in or outside a quotation: the text, and whether it
/// is in a quotation at the end. Outside a quotation a backslash stands for the
/// character behind it; a character that is neither this nor a quotation mark may
/// mean anything to the shell, and gives nothing here.
pub open spec fn shell_meaning(s: Seq<char>, quoted: bool) -> Option<(Seq<char>, bool)>
    decreases s.len(),
{
    if s.len() == 0 {
        Some((Seq::empty(), quoted))
    } else if s[0] == '\'' {
        shell_meaning(s.drop_first(), !quoted)
    } else if quoted {
        match shell_meaning(s.drop_first(), quoted) {
            Some((text, end)) => Some((seq![s[0]] + text, end)),
            None => None,
        }
    } else if s[0] == '\\' && s.len() > 1 {
        match shell_meaning(s.skip(2), quoted) {
            Some((text, end)) => Some((seq![s[1]] + text, end)),
            None => None,
        }
    } else {
        None
    }
}

/// Whatever the text, the shell reads it as one word that is the text.
pub proof fn law_shell_words_mean_their_text(s: Seq<char>)
    ensures
        shell_meaning(shell_word(s), false) == Some((s, false)),
{
    let inside = shell_chars(s) + seq!['\''];
    assert(shell_word(s).drop_first() =~= inside);
    lemma_shell_inside(s);
}

proof fn lemma_shell_inside(s: Seq<char>)
    ensures
        shell_meaning(shell_chars(s) + seq!['\''], true) == Some((s, false)),
    decreases s.len(),
{
    let whole = shell_chars(s) + seq!['\''];
    if s.len() == 0 {
        assert(whole =~= seq!['\'']);
        assert(whole.drop_first() =~= Seq::<char>::empty());
        assert(s =~= Seq::<char>::empty());
        reveal_with_fuel(shell_meaning, 2);
    } else {
        let rest = shell_chars(s.drop_first()) + seq!['\''];
        lemma_shell_inside(s.drop_first());
        assert(seq![s[0]] + s.drop_first() =~= s);
        if s[0] == '\'' {
            let a = whole.drop_first();
            let b = a.skip(2);
            assert(a[0] == '\\' && a[1] == '\'');
            assert(b[0] == '\'');
            assert(b.drop_first() =~= rest);
            assert(shell_meaning(b, false) == shell_meaning(rest, true));
            assert(shell_meaning(a, false) == Some((seq!['\''] + s.drop_first(), false)));
        } else {
            assert(whole.drop_first() =~= rest);
        }
    }
}

pub fn shell_quote(value: &str) -> (word: String)
    ensures
        word@ == shell_word(value@),
{
    let chars = chars_of(value);
    let mut word = String::new();
    word.push('\'');
    let mut i: usize = 0;
    assert(value@.skip(0) =~= value@);
    assert(word@ + shell_chars(value@) =~= seq!['\''] + shell_chars(value@));
    while i < chars.len()
        invariant
            i <= chars@.len(),
            chars@ == value@,
            word@ + shell_chars(value@.skip(i as int)) == seq!['\''] + shell_chars(value@),
        decreases chars@.len() - i,
    {
        let c: char = chars[i];
        let ghost before = word@;
        let ghost rest = value@.skip(i as int);
        assert(rest.drop_first() =~= value@.skip(i + 1));
        if c == '\'' {
            word.push('\'');
            word.push('\\');
            word.push('\'');
            word.push('\'');
        } else {
            word.push(c);
        }
        assert(word@ =~= before + shell_char(c));
        assert(word@ + shell_chars(value@.skip(i + 1)) =~= before + shell_chars(rest));
        i += 1;
    }
    assert(value@.skip(i as int) =~= Seq::<char>::empty());
    assert(word@ =~= seq!['\''] + shell_chars(value@));
    word.push('\'');
    assert(word@ =~= shell_word(value@));
    word
}

/// The command that installs the driver found at `source`.
pub open spec fn install_command_text(source: Seq<char>) -> Seq<char> {
    let directory = shell_word(INSTALLED_DRIVER_DIR@);
    let destination = shell_word(INSTALLED_DRIVER_PATH@);
    "/bin/mkdir -p "@ + directory + " && /bin/rm -rf "@ + destination + " && /bin/cp -R "@
        + shell_word(source) + " "@ + destination + " && /usr/sbin/chown -R root:wheel "@
        + destination + " && (/usr/bin/killall coreaudiod >/dev/null 2>&1 || true)"@
}

pub fn install_command(source: &str) -> (command: String)
    ensures
        command@ == install_command_text(source@),
{
    let directory = shell_quote(INSTALLED_DRIVER_DIR);
    let destination = shell_quote(INSTALLED_DRIVER_PATH);
    let source = shell_quote(source);
    let mut command = "/bin/mkdir -p ".to_owned();
    command.push_str(directory.as_str());
    command.push_str(" && /bin/rm -rf ");
    command.push_str(destination.as_str());
    command.push_str(" && /bin/cp -R ");
    command.push_str(source.as_str());
    command.push_str(" ");
    command.push_str(destination.as_str());
    command.push_str(" && /usr/sbin/chown -R root:wheel ");
    command.push_str(destination.as_str());
    command.push_str(" && (/usr/bin/killall coreaudiod >/dev/null 2>&1 || true)");
    command
}

/// The script that asks whether to install the driver, and does.
pub open spec fn install_script_text(source: Seq<char>) -> Seq<char> {
    "set buttonChoice to button returned of (display dialog "@ + script_string(
        "m5mic needs to install its CoreAudio driver before the virtual microphone can appear in Sound Settings."@,
    ) + " with title "@ + script_string("m5mic"@)
        + " buttons {\"Later\", \"Install\"} default button \"Install\")\nif buttonChoice is \"Install\" then\n    do shell script "@
        + script_string(install_command_text(source)) + " with administrator privileges\nend if"@
}

pub fn driver_install_script(source: &str) -> (script: String)
    ensures
        script@ == install_script_text(source@),
{
    let message = applescript_string(
        "m5mic needs to install its CoreAudio driver before the virtual microphone can appear in Sound Settings.",
    );
    let title = applescript_string("m5mic");
    let command = install_command(source);
    let command = applescript_string(command.as_str());
    let mut script = "set buttonChoice to button returned of (display dialog ".to_owned();
    script.push_str(message.as_str());
    script.push_str(" with title ");
    script.push_str(title.as_str());
    script.push_str(
        " buttons {\"Later\", \"Install\"} default button \"Install\")\nif buttonChoice is \"Install\" then\n    do shell script ",
    );
    script.push_str(command.as_str());
    script.push_str(" with administrator privileges\nend if");
    script
}

/// The part of a script that shows a dialog and keeps its answer.
pub open spec fn ask_text(
    variable: Seq<char>,
    message: Seq<char>,
    default_answer: Seq<char>,
    hidden: bool,
) -> Seq<char> {
    "set "@ + variable + " to text returned of (display dialog "@ + script_string(message)
        + " with title "@ + script_string(SETUP_TITLE@) + " default answer "@ + script_string(
        default_answer,
    ) + if hidden {
        " with hidden answer)\n"@
    } else {
        ")\n"@
    }
}

fn ask(variable: &str, message: &str, default_answer: &str, hidden: bool) -> (part: String)
    ensures
        part@ == ask_text(variable@, message@, default_answer@, hidden),
{
    let message = applescript_string(message);
    let title = applescript_string(SETUP_TITLE);
    let answer = applescript_string(default_answer);
    let mut part = "set ".to_owned();
    part.push_str(variable);
    part.push_str(" to text returned of (display dialog ");
    part.push_str(message.as_str());
    part.push_str(" with title ");
    part.push_str(title.as_str());
    part.push_str(" default answer ");
    part.push_str(answer.as_str());
    if hidden {
        part.push_str(" with hidden answer)\n");
    } else {
        part.push_str(")\n");
    }
    part
}

/// What is said where the password of the current network is known.
pub open spec fn share_message(ssid: Seq<char>) -> Seq<char> {
    "Share this Mac's current Wi-Fi network ("@ + ssid + ") with the M5StickS3.\n\n"@
        + CODE_MESSAGE@
}

/// The script that asks for the code alone.
pub open spec fn code_script_text(ssid: Seq<char>) -> Seq<char> {
    ask_text("codeResult"@, share_message(ssid), ""@, false) + "return codeResult"@
}

pub fn current_wifi_script(ssid: &str) -> (script: String)
    ensures
        script@ == code_script_text(ssid@),
{
    let mut message = "Share this Mac's current Wi-Fi network (".to_owned();
    message.push_str(ssid);
    message.push_str(") with the M5StickS3.\n\n");
    message.push_str(CODE_MESSAGE);
    let mut script = ask("codeResult", message.as_str(), "", false);
    script.push_str("return codeResult");
    script
}

/// What is said where the password of the current network is not known.
pub open spec fn password_message(ssid: Seq<char>) -> Seq<char> {
    "Could not read the Wi-Fi password for "@ + ssid
        + " from Keychain.\n\nEnter the password to send this network to the M5StickS3:"@
}

/// The script that asks for the password and the code.
pub open spec fn password_script_text(ssid: Seq<char>) -> Seq<char> {
    ask_text("passResult"@, password_message(ssid), ""@, true) + ask_text(
        "codeResult"@,
        CODE_MESSAGE@,
        ""@,
        false,
    ) + "return passResult & linefeed & codeResult"@
}

pub fn current_wifi_password_script(ssid: &str) -> (script: String)
    ensures
        script@ == password_script_text(ssid@),
{
    let mut message = "Could not read the Wi-Fi password for ".to_owned();
    message.push_str(ssid);
    message.push_str(
        " from Keychain.\n\nEnter the password to send this network to the M5StickS3:",
    );
    let mut script = ask("passResult", message.as_str(), "", true);
    let code = ask("codeResult", CODE_MESSAGE, "", false);
    script.push_str(code.as_str());
    script.push_str("return passResult & linefeed & codeResult");
    script
}

/// The script that asks for the name, the password and the code.
pub open spec fn manual_script_text(message: Seq<char>, default_ssid: Seq<char>) -> Seq<char> {
    ask_text("ssidResult"@, message, default_ssid, false) + ask_text(
        "passResult"@,
        "Wi-Fi password:"@,
        ""@,
        true,
    ) + ask_text("codeResult"@, CODE_MESSAGE@, ""@, false)
        + "return ssidResult & linefeed & passResult & linefeed & codeResult"@
}

pub fn manual_wifi_script(message: &str, default_ssid: &str) -> (script: String)
    ensures
        script@ == manual_script_text(message@, default_ssid@),
{
    let mut script = ask("ssidResult", message, default_ssid, false);
    let password = ask("passResult", "Wi-Fi password:", "", true);
    let code = ask("codeResult", CODE_MESSAGE, "", false);
    script.push_str(password.as_str());
    script.push_str(code.as_str());
    script.push_str("return ssidResult & linefeed & passResult & linefeed & codeResult");
    script
}

/// How a dialog failed.
#[derive(Debug)]
pub enum PromptFailure {
    Canceled,
    Failed(String),
}

/// What is said of a script that failed: its own words, or how it ended if it left
/// none.
pub open spec fn failure_text(stderr: Seq<char>, exit_status: Seq<char>) -> Seq<char> {
    if trimmed(stderr).len() == 0 {
        "osascript exited with "@ + exit_status
    } else {
        trimmed(stderr)
    }
}

pub fn failure_message(stderr: &str, exit_status: &str) -> (message: String)
    ensures
        message@ == failure_text(stderr@, exit_status@),
{
    let message = trim_text(stderr);
    if message.as_str().is_empty() {
        let mut message = "osascript exited with ".to_owned();
        message.push_str(exit_status);
        message
    } else {
        message
    }
}

/// Whether a dialog was canceled, by what its script said.
pub open spec fn is_canceled(stderr: Seq<char>, several_questions: bool) -> bool {
    contains(stderr, "User canceled"@) || (several_questions && contains(stderr, "-128"@))
}

/// What a dialog's failure comes to. The number of a cancellation counts only for
/// dialogs that ask more than one question.
pub fn prompt_failure(stderr: &str, exit_status: &str, several_questions: bool) -> (failure:
    PromptFailure)
    ensures
        if is_canceled(stderr@, several_questions) {
            failure is Canceled
        } else {
            failure matches PromptFailure::Failed(message) && message@ == failure_text(
                stderr@,
                exit_status@,
            )
        },
{
    if contains_text(stderr, "User canceled") || (several_questions && contains_text(
        stderr,
        "-128",
    )) {
        PromptFailure::Canceled
    } else {
        PromptFailure::Failed(failure_message(stderr, exit_status))
    }
}

/// What is sent to the microphone.
#[derive(Debug)]
pub struct WifiProvisionRequest {
    pub ssid: String,
    pub password: String,
    pub setup_code: String,
}

pub ghost struct RequestView {
    pub ssid: Seq<char>,
    pub password: Seq<char>,
    pub setup_code: Seq<char>,
}

impl View for WifiProvisionRequest {
    type V = RequestView;

    open spec fn view(&self) -> RequestView {
        RequestView {
            ssid: self.ssid@,
            password: self.password@,
            setup_code: self.setup_code@,
        }
    }
}

/// The answer to the code alone; nothing if it is not text.
pub fn code_answer(ssid: &str, password: &str, stdout: &[u8]) -> (request: Option<
    WifiProvisionRequest,
>)
    ensures
        match utf8_decoded(stdout@) {
            Some(text) => request matches Some(request) && request@ == (RequestView {
                ssid: ssid@,
                password: password@,
                setup_code: trimmed(text),
            }),
            None => request is None,
        },
{
    match decode_text(stdout) {
        Some(text) => Some(
            WifiProvisionRequest {
                ssid: ssid.to_owned(),
                password: password.to_owned(),
                setup_code: trim_text(text),
            },
        ),
        None => None,
    }
}

/// The answer to the password and the code: the first line is the password, to the
/// letter, and what follows is the code.
pub open spec fn password_and_code(ssid: Seq<char>, stdout: Seq<char>) -> RequestView {
    let text = without_line_ends(stdout, false);
    RequestView {
        ssid,
        password: first_line(text),
        setup_code: trimmed(after_first_line(text)),
    }
}

pub fn password_answer(ssid: &str, stdout: &[u8]) -> (request: Option<WifiProvisionRequest>)
    ensures
        match utf8_decoded(stdout@) {
            Some(text) => request matches Some(request) && request@ == password_and_code(
                ssid@,
                text,
            ),
            None => request is None,
        },
{
    let text = match decode_text(stdout) {
        Some(text) => chars_of(text),
        None => return None,
    };
    let answer = trim_line_ends(text.as_slice(), false);
    let (password, rest) = split_line(answer);
    Some(
        WifiProvisionRequest {
            ssid: ssid.to_owned(),
            password: string_of(password),
            setup_code: string_of(trim(rest)),
        },
    )
}

/// The answer to all three: the name, the password and the code, a line each.
pub open spec fn manual_request(stdout: Seq<char>) -> RequestView {
    let text = without_line_ends(stdout, false);
    let rest = after_first_line(text);
    RequestView {
        ssid: trimmed(first_line(text)),
        password: first_line(rest),
        setup_code: trimmed(after_first_line(rest)),
    }
}

#[derive(Debug, Clone, Copy, PartialEq, Eq, Structural)]
pub enum AnswerError {
    NotText,
    SsidMissing,
}

pub fn manual_answer(stdout: &[u8]) -> (result: Result<WifiProvisionRequest, AnswerError>)
    ensures
        match utf8_decoded(stdout@) {
            None => result matches Err(error) && error == AnswerError::NotText,
            Some(text) => if manual_request(text).ssid.len() == 0 {
                result matches Err(error) && error == AnswerError::SsidMissing
            } else {
                result matches Ok(request) && request@ == manual_request(text)
            },
        },
{
    let text = match decode_text(stdout) {
        Some(text) => chars_of(text),
        None => return Err(AnswerError::NotText),
    };
    let answer = trim_line_ends(text.as_slice(), false);
    let (ssid, rest) = split_line(answer);
    let (password, code) = split_line(rest);
    let ssid = trim(ssid);
    if ssid.len() == 0 {
        return Err(AnswerError::SsidMissing);
    }
    Ok(
        WifiProvisionRequest {
            ssid: string_of(ssid),
            password: string_of(password),
            setup_code: string_of(trim(code)),
        },
    )
}

/// Which dialog is shown.
#[derive(Debug, Clone, Copy, PartialEq, Eq, Structural)]
pub enum ProvisionPrompt {
    /// The network and its password are known.
    Code,
    /// The network is known.
    Password,
    Manual,
}

/// The dialog that asks for what is not known.
pub open spec fn prompt_for(network_known: bool, password_known: bool) -> ProvisionPrompt {
    if !network_known {
        ProvisionPrompt::Manual
    } else if password_known {
        ProvisionPrompt::Code
    } else {
        ProvisionPrompt::Password
    }
}

pub fn choose_prompt(network_known: bool, password_known: bool) -> (prompt: ProvisionPrompt)
    ensures
        prompt == prompt_for(network_known, password_known),
{
    if !network_known {
        ProvisionPrompt::Manual
    } else if password_known {
        ProvisionPrompt::Code
    } else {
        ProvisionPrompt::Password
    }
}

/// The answers are read back as they were typed in: the name and the code without the
/// white space around them, and the password to the letter, with as many line ends
/// behind it all as there may be.
pub proof fn law_answers_are_read_back(
    ssid: Seq<char>,
    password: Seq<char>,
    code: Seq<char>,
    ends: Seq<char>,
)
    requires
        forall|i: int| 0 <= i < ssid.len() ==> #[trigger] ssid[i] != '\n',
        forall|i: int| 0 <= i < password.len() ==> #[trigger] password[i] != '\n',
        code.len() > 0 && code[code.len() - 1] != '\n' && code[code.len() - 1] != '\r',
        forall|i: int| 0 <= i < ends.len() ==> #[trigger] ends[i] == '\n',
    ensures
        manual_request(ssid + seq!['\n'] + password + seq!['\n'] + code + ends) == (RequestView {
            ssid: trimmed(ssid),
            password,
            setup_code: trimmed(code),
        }),
        password_and_code(ssid, password + seq!['\n'] + code + ends) == (RequestView {
            ssid,
            password,
            setup_code: trimmed(code),
        }),
{
    let two = password + seq!['\n'] + code;
    let three = ssid + seq!['\n'] + two;
    assert(two[two.len() - 1] == code[code.len() - 1]);
    assert(three[three.len() - 1] == code[code.len() - 1]);
    law_only_line_ends_are_taken_away(two, ends, false);
    law_only_line_ends_are_taken_away(three, ends, false);
    assert(ssid + seq!['\n'] + password + seq!['\n'] + code + ends =~= three + ends);
    law_a_line_ends_at_its_end(password, code);
    law_a_line_ends_at_its_end(ssid, two);
}

/// What a script says of its failure is shown without the white space around it, and
/// only one that says nothing is spoken of by how it ended.
pub proof fn law_a_failure_is_told_in_its_own_words(
    before: Seq<char>,
    words: Seq<char>,
    after: Seq<char>,
    exit_status: Seq<char>,
)
    requires
        forall|i: int| 0 <= i < before.len() ==> is_space(#[trigger] before[i]),
        forall|i: int| 0 <= i < after.len() ==> is_space(#[trigger] after[i]),
        words.len() > 0 ==> !is_space(words[0]) && !is_space(words[words.len() - 1]),
    ensures
        words.len() > 0 ==> failure_text(before + words + after, exit_status) == words,
        failure_text(before, exit_status) == "osascript exited with "@ + exit_status,
{
    law_trimming_takes_only_outer_space(before, words, after);
    law_trimming_takes_only_outer_space(before, Seq::empty(), Seq::empty());
    assert(before + Seq::<char>::empty() + Seq::<char>::empty() =~= before);
}

/// A dialog shows the message and the title it was given, offers the default answer, and
/// keeps the answer from view if and only if it is asked to: the two forms differ in
/// nothing else.
pub proof fn law_a_hidden_question_is_hidden(
    variable: Seq<char>,
    message: Seq<char>,
    default_answer: Seq<char>,
)
    ensures
        ({
            let open = ask_text(variable, message, default_answer, false);
            let hidden = ask_text(variable, message, default_answer, true);
            &&& hidden == open.take(open.len() - 2) + " with hidden answer"@ + open.skip(
                open.len() - 2,
            )
            &&& open.skip(open.len() - 2) == ")\n"@
        }),
{
    reveal_strlit(" with hidden answer)\n");
    reveal_strlit(" with hidden answer");
    reveal_strlit(")\n");
    let open = ask_text(variable, message, default_answer, false);
    assert(open.skip(open.len() - 2) =~= ")\n"@);
    assert(" with hidden answer)\n"@ =~= " with hidden answer"@ + ")\n"@);
    assert(ask_text(variable, message, default_answer, true) =~= open.take(open.len() - 2)
        + " with hidden answer"@ + ")\n"@);
}

/// The dialogs ask for passwords in secret, and for nothing else: the name and the code
/// can be seen as they are typed in.
pub proof fn law_passwords_are_asked_for_in_secret(
    ssid: Seq<char>,
    message: Seq<char>,
    default_ssid: Seq<char>,
)
    ensures
        ({
            let code = ask_text("codeResult"@, CODE_MESSAGE@, ""@, false);
            let known = ask_text("passResult"@, password_message(ssid), ""@, true);
            let name = ask_text("ssidResult"@, message, default_ssid, false);
            let password = ask_text("passResult"@, "Wi-Fi password:"@, ""@, true);
            &&& password_script_text(ssid).take((known + code).len() as int) == known + code
            &&& manual_script_text(message, default_ssid).take(
                (name + password + code).len() as int,
            ) == name + password + code
            &&& code_script_text(ssid) == ask_text("codeResult"@, share_message(ssid), ""@, false)
                + "return codeResult"@
        }),
{
    let code = ask_text("codeResult"@, CODE_MESSAGE@, ""@, false);
    let known = ask_text("passResult"@, password_message(ssid), ""@, true);
    let name = ask_text("ssidResult"@, message, default_ssid, false);
    let password = ask_text("passResult"@, "Wi-Fi password:"@, ""@, true);
    assert(password_script_text(ssid).take((known + code).len() as int) =~= known + code);
    assert(manual_script_text(message, default_ssid).take((name + password + code).len() as int)
        =~= name + password + code);
}

/// A dialog asks for what is not known and for nothing that is: for the network if and
/// only if that is not known, and for the password of a network that is known if and only
/// if the password is not.
pub proof fn law_only_what_is_not_known_is_asked_for(network_known: bool, password_known: bool)
    ensures
        prompt_for(network_known, password_known) is Manual <==> !network_known,
        prompt_for(true, password_known) is Password <==> !password_known,
        prompt_for(true, password_known) is Code <==> password_known,
{
}

/// A dialog was canceled where the script says so, whatever it says before and after; the
/// number alone will do only where there was more than one question.
pub proof fn law_a_cancellation_is_recognised(
    before: Seq<char>,
    after: Seq<char>,
    several_questions: bool,
)
    ensures
        is_canceled(before + "User canceled"@ + after, several_questions),
        is_canceled(before + "-128"@ + after, true),
        is_canceled(before, several_questions) ==> contains(before, "User canceled"@) || (
        several_questions && contains(before, "-128"@)),
        is_canceled(before, false) ==> is_canceled(before, true),
{
    lemma_contains_part(before, "User canceled"@, after);
    lemma_contains_part(before, "-128"@, after);
}

proof fn lemma_contains_part(before: Seq<char>, part: Seq<char>, after: Seq<char>)
    ensures
        contains(before + part + after, part),
{
    let whole = before + part + after;
    let n = before.len() as int;
    assert(whole.subrange(n, n + part.len()) =~= part);
    lemma_occurs_from(whole, part, 0, n);
}

proof fn lemma_occurs_from(s: Seq<char>, pattern: Seq<char>, from: int, at: int)
    requires
        0 <= from <= at,
        at + pattern.len() <= s.len(),
        s.subrange(at, at + pattern.len()) == pattern,
    ensures
        occurrence(s, pattern, from) is Some,
    decreases at - from,
{
    if from < at && s.subrange(from, from + pattern.len()) != pattern {
        lemma_occurs_from(s, pattern, from + 1, at);
    }
}

} // verus!
