//! The launcher's side of a direct injection: the arguments it hands the injector, the
//! inherited variables it withholds, and how a failed child's output is shown.

use vstd::prelude::*;

use crate::launcher_settings::{settings_error, LauncherSettings, SettingsError};
use crate::model_discovery::{validate_api_key, ModelError, MAX_API_KEY_BYTES};
use crate::renderer_addons::RendererAddonSettings;
use crate::strings::{push_chars, string_from_chars};
use crate::supervisor::{child_event_of, launcher_child_event, ChildEventFields, EventView, LauncherChildEvent};
use crate::codec::{lossy_utf8, utf8_lossy};
use crate::compatibility::{ascii_lower, ascii_lower_char, to_ascii_lower_char};
use crate::renderer_addons::{find_from, first_match_from, lemma_first_match_found};
use crate::text::{
    char_is_control, chars_equal, chars_of, is_bounded_clean_chars, is_control_char, slice_chars, trim_chars, trimmed,
};
use vstd::utf8::{encode_scalar, encode_utf8};
use crate::winpath::{is_absolute_path, path_is_absolute};

verus! {

/// The variable through which a configured run receives the provider key.
pub const PROVIDER_RUNTIME_ENV_KEY: &'static str = "CODEX_ADMINISTRATOR_PROVIDER_API_KEY";

/// Why the launcher cannot start the injector.
#[derive(Debug, Clone, Copy, PartialEq, Eq, Structural)]
pub enum LauncherError {
    Settings(SettingsError),
    InstanceRootNotAbsolute,
    InvalidApiKey,
    CredentialInconsistent,
}

/// The arguments of each selected model.
pub open spec fn model_arguments(models: Seq<String>) -> Seq<Seq<char>>
    decreases models.len(),
{
    if models.len() == 0 {
        Seq::empty()
    } else {
        model_arguments(models.drop_last()) + seq!["--model"@, models.last()@]
    }
}

/// The arguments of each enabled renderer addon: its id and checkout, joined by `=`.
pub open spec fn addon_arguments(addons: Seq<RendererAddonSettings>) -> Seq<Seq<char>>
    decreases addons.len(),
{
    if addons.len() == 0 {
        Seq::empty()
    } else if addons.last().enabled {
        addon_arguments(addons.drop_last()) + seq![
            "--renderer-addon"@,
            addons.last().id@ + "="@ + addons.last().source_root@,
        ]
    } else {
        addon_arguments(addons.drop_last())
    }
}

pub open spec fn flag(on: bool, name: Seq<char>) -> Seq<Seq<char>> {
    if on {
        seq![name]
    } else {
        Seq::empty()
    }
}

/// The injector's command line for a direct, launcher-managed run with these settings.
pub open spec fn direct_launcher_arguments(
    settings: &LauncherSettings,
    instance_root: Seq<char>,
    credential_present: bool,
) -> Seq<Seq<char>> {
    seq!["inject"@, "--host"@, "direct"@, "--launcher-managed"@] + model_arguments(settings.selected_models@)
        + addon_arguments(settings.renderer_addons@) + seq![
        "--base-url"@,
        settings.base_url@,
        "--action-path"@,
        settings.action_path@,
        "--env-key"@,
        PROVIDER_RUNTIME_ENV_KEY@,
        "--instance-root"@,
        instance_root,
        "--retain-instance-root"@,
    ] + flag(!settings.action_path_auto, "--manual-action-path"@) + flag(settings.sync_native_auth, "--sync-native-auth"@)
        + flag(settings.sync_native_sessions, "--sync-native-sessions"@) + flag(
        settings.sync_native_goals,
        "--sync-native-goals"@,
    ) + flag(settings.sync_native_skills, "--sync-native-skills"@) + flag(credential_present, "--credential-present"@)
}

pub open spec fn arguments_view(arguments: Seq<String>) -> Seq<Seq<char>> {
    arguments.map_values(|a: String| a@)
}

fn push_text(arguments: &mut Vec<String>, text: &str)
    ensures
        arguments_view(final(arguments)@) == arguments_view(old(arguments)@).push(text@),
{
    let ghost before = arguments@;
    arguments.push(text.to_string());
    proof {
        assert(arguments_view(arguments@) =~= arguments_view(before).push(text@));
    }
}

fn push_flag(arguments: &mut Vec<String>, on: bool, name: &str)
    ensures
        arguments_view(final(arguments)@) == arguments_view(old(arguments)@) + flag(on, name@),
{
    let ghost before = arguments_view(arguments@);
    if on {
        push_text(arguments, name);
        proof {
            assert(before.push(name@) =~= before + seq![name@]);
        }
    } else {
        proof {
            assert(before =~= before + Seq::<Seq<char>>::empty());
        }
    }
}

/// The injector's command line for a direct run: the settings must be valid and the
/// instance root absolute.
pub fn build_direct_launcher_arguments(
    settings: &LauncherSettings,
    instance_root: &str,
    credential_present: bool,
) -> (result: Result<Vec<String>, LauncherError>)
    ensures
        match settings_error(settings) {
            Some(error) => result == Err::<Vec<String>, LauncherError>(LauncherError::Settings(error)),
            None => if !is_absolute_path(instance_root@) {
                result == Err::<Vec<String>, LauncherError>(LauncherError::InstanceRootNotAbsolute)
            } else {
                result matches Ok(arguments) && arguments_view(arguments@) == direct_launcher_arguments(
                    settings,
                    instance_root@,
                    credential_present,
                )
            },
        },
{
    if let Err(error) = settings.validate() {
        return Err(LauncherError::Settings(error));
    }
    if !path_is_absolute(instance_root) {
        return Err(LauncherError::InstanceRootNotAbsolute);
    }
    let mut arguments: Vec<String> = Vec::new();
    push_text(&mut arguments, "inject");
    push_text(&mut arguments, "--host");
    push_text(&mut arguments, "direct");
    push_text(&mut arguments, "--launcher-managed");
    proof {
        assert(arguments_view(arguments@) =~= seq!["inject"@, "--host"@, "direct"@, "--launcher-managed"@]);
    }
    let ghost head = arguments_view(arguments@);
    let models = &settings.selected_models;
    for i in 0..models.len()
        invariant
            models@ == settings.selected_models@,
            arguments_view(arguments@) == head + model_arguments(models@.take(i as int)),
    {
        proof {
            assert(models@.take(i + 1).drop_last() =~= models@.take(i as int));
        }
        push_text(&mut arguments, "--model");
        push_text(&mut arguments, models[i].as_str());
        proof {
            assert(arguments_view(arguments@) =~= head + model_arguments(models@.take(i + 1)));
        }
    }
    proof {
        assert(models@.take(models@.len() as int) =~= models@);
    }
    let ghost head2 = arguments_view(arguments@);
    let addons = &settings.renderer_addons;
    for i in 0..addons.len()
        invariant
            addons@ == settings.renderer_addons@,
            arguments_view(arguments@) == head2 + addon_arguments(addons@.take(i as int)),
    {
        proof {
            assert(addons@.take(i + 1).drop_last() =~= addons@.take(i as int));
        }
        let addon = &addons[i];
        if addon.enabled {
            push_text(&mut arguments, "--renderer-addon");
            let mut value = addon.id.clone();
            let eq = chars_of("=");
            push_chars(&mut value, eq.as_slice());
            let root = chars_of(addon.source_root.as_str());
            push_chars(&mut value, root.as_slice());
            let ghost before = arguments@;
            arguments.push(value);
            proof {
                assert(arguments_view(arguments@) =~= arguments_view(before).push(value@));
                assert(arguments_view(arguments@) =~= head2 + addon_arguments(addons@.take(i + 1)));
            }
        } else {
            proof {
                assert(arguments_view(arguments@) =~= head2 + addon_arguments(addons@.take(i + 1)));
            }
        }
    }
    proof {
        assert(addons@.take(addons@.len() as int) =~= addons@);
    }
    let ghost head3 = arguments_view(arguments@);
    push_text(&mut arguments, "--base-url");
    push_text(&mut arguments, settings.base_url.as_str());
    push_text(&mut arguments, "--action-path");
    push_text(&mut arguments, settings.action_path.as_str());
    push_text(&mut arguments, "--env-key");
    push_text(&mut arguments, PROVIDER_RUNTIME_ENV_KEY);
    push_text(&mut arguments, "--instance-root");
    push_text(&mut arguments, instance_root);
    push_text(&mut arguments, "--retain-instance-root");
    proof {
        assert(arguments_view(arguments@) =~= head3 + seq![
            "--base-url"@,
            settings.base_url@,
            "--action-path"@,
            settings.action_path@,
            "--env-key"@,
            PROVIDER_RUNTIME_ENV_KEY@,
            "--instance-root"@,
            instance_root@,
            "--retain-instance-root"@,
        ]);
    }
    push_flag(&mut arguments, !settings.action_path_auto, "--manual-action-path");
    push_flag(&mut arguments, settings.sync_native_auth, "--sync-native-auth");
    push_flag(&mut arguments, settings.sync_native_sessions, "--sync-native-sessions");
    push_flag(&mut arguments, settings.sync_native_goals, "--sync-native-goals");
    push_flag(&mut arguments, settings.sync_native_skills, "--sync-native-skills");
    push_flag(&mut arguments, credential_present, "--credential-present");
    proof {
        assert(arguments_view(arguments@) =~= direct_launcher_arguments(settings, instance_root@, credential_present));
    }
    Ok(arguments)
}

/// Checks the key the launcher would hand a configured run, and that it is handed only
/// when a credential is reported present.
pub fn validate_launch_credential(api_key: Option<&str>, credential_present: bool) -> (result: Result<(), LauncherError>)
    ensures
        match api_key {
            Some(key) => if !is_bounded_clean_chars(key@, MAX_API_KEY_BYTES) {
                result == Err::<(), LauncherError>(LauncherError::InvalidApiKey)
            } else if !credential_present {
                result == Err::<(), LauncherError>(LauncherError::CredentialInconsistent)
            } else {
                result is Ok
            },
            None => result is Ok,
        },
{
    match api_key {
        Some(key) => {
            if validate_api_key(key).is_err() {
                return Err(LauncherError::InvalidApiKey);
            }
            if !credential_present {
                return Err(LauncherError::CredentialInconsistent);
            }
            Ok(())
        },
        None => Ok(()),
    }
}


/// The ASCII uppercase form of `c`.
pub open spec fn ascii_upper_char(c: char) -> char {
    if 'a' <= c && c <= 'z' {
        (((c as u8) - 32) as u8) as char
    } else {
        c
    }
}

pub open spec fn ascii_upper(s: Seq<char>) -> Seq<char> {
    s.map_values(|c: char| ascii_upper_char(c))
}

pub open spec fn ends_with(s: Seq<char>, suffix: Seq<char>) -> bool {
    suffix.len() <= s.len() && s.skip(s.len() - suffix.len()) == suffix
}

/// Names, in uppercase, of variables that hold secrets.
pub open spec fn is_secret_name(name: Seq<char>) -> bool {
    ||| name == "OPENAI_API_KEY"@
    ||| ends_with(name, "_API_KEY"@)
    ||| ends_with(name, "_TOKEN"@)
    ||| ends_with(name, "_SECRET"@)
    ||| ends_with(name, "_PASSWORD"@)
    ||| ends_with(name, "_PAT"@)
    ||| ends_with(name, "_PWD"@)
    ||| ends_with(name, "_CONNECTION_STRING"@)
    ||| name == "API_KEY"@
    ||| name == "AWS_ACCESS_KEY_ID"@
    ||| name == "AWS_SECRET_ACCESS_KEY"@
    ||| name == "CONNECTION_STRING"@
    ||| name == "DATABASE_URL"@
    ||| name == "GOOGLE_APPLICATION_CREDENTIALS"@
    ||| name == "PASSWORD"@
    ||| name == "PAT"@
    ||| name == "PGPASSWORD"@
    ||| name == "SECRET"@
    ||| name == "TOKEN"@
}

fn ascii_uppercase(chars: &[char]) -> (result: Vec<char>)
    ensures
        result@ == ascii_upper(chars@),
{
    let mut out: Vec<char> = Vec::new();
    for i in 0..chars.len()
        invariant
            out@ == ascii_upper(chars@.take(i as int)),
    {
        let c = chars[i];
        let u = if 'a' <= c && c <= 'z' {
            ((c as u8) - 32) as char
        } else {
            c
        };
        out.push(u);
        proof {
            assert(ascii_upper(chars@.take(i + 1)) =~= ascii_upper(chars@.take(i as int)).push(ascii_upper_char(c)));
        }
    }
    proof {
        assert(chars@.take(chars@.len() as int) =~= chars@);
    }
    out
}

fn is_text(chars: &Vec<char>, expected: &str) -> (result: bool)
    ensures
        result == (chars@ == expected@),
{
    let e = chars_of(expected);
    crate::text::chars_equal(chars.as_slice(), e.as_slice())
}

fn has_suffix(chars: &Vec<char>, suffix: &str) -> (result: bool)
    ensures
        result == ends_with(chars@, suffix@),
{
    let e = chars_of(suffix);
    if e.len() > chars.len() {
        return false;
    }
    let tail = crate::text::slice_chars(chars.as_slice(), chars.len() - e.len(), chars.len());
    proof {
        assert(tail@ =~= chars@.skip(chars@.len() - e@.len()));
    }
    crate::text::chars_equal(tail.as_slice(), e.as_slice())
}

/// Whether an inherited variable is withheld from the injector because its name, in
/// ASCII uppercase, marks a secret.
pub fn environment_variable_is_sensitive(key: &str) -> (result: bool)
    ensures
        result == is_secret_name(ascii_upper(key@)),
{
    let upper = ascii_uppercase(chars_of(key).as_slice());
    is_text(&upper, "OPENAI_API_KEY") || has_suffix(&upper, "_API_KEY") || has_suffix(&upper, "_TOKEN") || has_suffix(
        &upper,
        "_SECRET",
    ) || has_suffix(&upper, "_PASSWORD") || has_suffix(&upper, "_PAT") || has_suffix(&upper, "_PWD") || has_suffix(
        &upper,
        "_CONNECTION_STRING",
    ) || is_text(&upper, "API_KEY") || is_text(&upper, "AWS_ACCESS_KEY_ID") || is_text(&upper, "AWS_SECRET_ACCESS_KEY")
        || is_text(&upper, "CONNECTION_STRING") || is_text(&upper, "DATABASE_URL") || is_text(
        &upper,
        "GOOGLE_APPLICATION_CREDENTIALS",
    ) || is_text(&upper, "PASSWORD") || is_text(&upper, "PAT") || is_text(&upper, "PGPASSWORD") || is_text(
        &upper,
        "SECRET",
    ) || is_text(&upper, "TOKEN")
}

// ----- diagnostics of the launcher child -----

/// The most trailing bytes of the child's error output that a diagnostic reads.
pub const MAX_LAUNCHER_DIAGNOSTIC_INPUT_BYTES: usize = 65536;

/// The most bytes a diagnostic displays.
pub const MAX_LAUNCHER_DIAGNOSTIC_DISPLAY_BYTES: usize = 4096;

/// `text` with each occurrence of the non-empty `pat` replaced by `rep`, scanning from the
/// left without overlaps.
pub open spec fn replaced_all(text: Seq<char>, pat: Seq<char>, rep: Seq<char>) -> Seq<char>
    decreases text.len(),
{
    if pat.len() == 0 || text.len() < pat.len() {
        text
    } else if text.take(pat.len() as int) == pat {
        rep + replaced_all(text.skip(pat.len() as int), pat, rep)
    } else {
        seq![text[0]] + replaced_all(text.skip(1), pat, rep)
    }
}

/// The index of the first `\n` at or after `start`, or the length.
pub open spec fn newline_at_or_after(text: Seq<char>, start: int) -> int
    decreases text.len() - start,
{
    if start >= text.len() {
        text.len() as int
    } else if text[start] == '\n' {
        start
    } else {
        newline_at_or_after(text, start + 1)
    }
}

pub proof fn lemma_newline_bounds(text: Seq<char>, start: int)
    requires
        0 <= start <= text.len(),
    ensures
        start <= newline_at_or_after(text, start) <= text.len(),
        newline_at_or_after(text, start) < text.len() ==> text[newline_at_or_after(text, start)] == '\n',
    decreases text.len() - start,
{
    if start < text.len() && text[start] != '\n' {
        lemma_newline_bounds(text, start + 1);
    }
}

/// The line that starts at `start`: up to the next `\n`, without a `\r` before that `\n`.
pub open spec fn line_at(text: Seq<char>, start: int) -> Seq<char> {
    let end = newline_at_or_after(text, start);
    let raw = text.subrange(start, end);
    if end < text.len() && raw.len() > 0 && raw.last() == '\r' {
        raw.drop_last()
    } else {
        raw
    }
}

/// A line as displayed: from a bearer authorization header on, redacted; otherwise with
/// each control character but the tab shown as a space.
pub open spec fn clean_line(line: Seq<char>) -> Seq<char> {
    match first_match_from(ascii_lower(line), "authorization: bearer"@, 0) {
        Some(k) => line.take(k) + "Authorization: [REDACTED]"@,
        None => line.map_values(|c: char| if is_control_char(c) && c != '\t' { ' ' } else { c }),
    }
}

/// The lines from `start` on, cleaned and joined by `\n`; `first` when no line came before.
pub open spec fn cleaned_lines_from(text: Seq<char>, start: int, first: bool) -> Seq<char>
    decreases text.len() + 1 - start,
{
    if start < 0 || start >= text.len() {
        Seq::empty()
    } else {
        let end = newline_at_or_after(text, start);
        proof {
            lemma_newline_bounds(text, start);
        }
        (if first {
            Seq::empty()
        } else {
            seq!['\n']
        }) + clean_line(line_at(text, start)) + cleaned_lines_from(text, end + 1, false)
    }
}

/// The length of the UTF-8 encoding of `s`.
pub open spec fn utf8_len(s: Seq<char>) -> int {
    encode_utf8(s).len() as int
}

/// The longest suffix of `s` whose UTF-8 encoding takes at most `limit` bytes.
pub open spec fn within_bytes(s: Seq<char>, limit: int) -> Seq<char>
    decreases s.len(),
{
    if s.len() == 0 || utf8_len(s) <= limit {
        s
    } else {
        within_bytes(s.drop_first(), limit)
    }
}

/// The diagnostic shown for the child's error output `bytes`: its last
/// `MAX_LAUNCHER_DIAGNOSTIC_INPUT_BYTES` decoded leniently, `secret` redacted, each line
/// cleaned, the whole trimmed, and at most its last `MAX_LAUNCHER_DIAGNOSTIC_DISPLAY_BYTES`
/// bytes kept, from a character boundary.
pub open spec fn sanitized_diagnostic(bytes: Seq<u8>, secret: Seq<char>) -> Seq<char> {
    let tail = if bytes.len() > MAX_LAUNCHER_DIAGNOSTIC_INPUT_BYTES {
        bytes.skip(bytes.len() - MAX_LAUNCHER_DIAGNOSTIC_INPUT_BYTES)
    } else {
        bytes
    };
    sanitized_text(lossy_utf8(tail), secret)
}

/// The diagnostic shown for the decoded error output `text`: `secret` redacted, each line
/// cleaned, the whole trimmed, and at most its last `MAX_LAUNCHER_DIAGNOSTIC_DISPLAY_BYTES`
/// bytes kept, from a character boundary.
pub open spec fn sanitized_text(text: Seq<char>, secret: Seq<char>) -> Seq<char> {
    let redacted = if secret.len() == 0 {
        text
    } else {
        replaced_all(text, secret, "[REDACTED]"@)
    };
    within_bytes(trimmed(cleaned_lines_from(redacted, 0, true)), MAX_LAUNCHER_DIAGNOSTIC_DISPLAY_BYTES as int)
}

proof fn lemma_within_bytes_fits(s: Seq<char>, limit: int)
    requires
        limit >= 0,
    ensures
        utf8_len(within_bytes(s, limit)) <= limit,
    decreases s.len(),
{
    if s.len() == 0 {
        assert(encode_utf8(s) =~= Seq::<u8>::empty());
    } else if utf8_len(s) > limit {
        lemma_within_bytes_fits(s.drop_first(), limit);
    }
}

/// A diagnostic never takes more than `MAX_LAUNCHER_DIAGNOSTIC_DISPLAY_BYTES` bytes, whatever
/// the child wrote and whatever the secret.
pub proof fn lemma_diagnostic_fits(bytes: Seq<u8>, secret: Seq<char>)
    ensures
        utf8_len(sanitized_diagnostic(bytes, secret)) <= MAX_LAUNCHER_DIAGNOSTIC_DISPLAY_BYTES,
{
    let tail = if bytes.len() > MAX_LAUNCHER_DIAGNOSTIC_INPUT_BYTES {
        bytes.skip(bytes.len() - MAX_LAUNCHER_DIAGNOSTIC_INPUT_BYTES)
    } else {
        bytes
    };
    let text = lossy_utf8(tail);
    let redacted = if secret.len() == 0 {
        text
    } else {
        replaced_all(text, secret, "[REDACTED]"@)
    };
    lemma_within_bytes_fits(trimmed(cleaned_lines_from(redacted, 0, true)), MAX_LAUNCHER_DIAGNOSTIC_DISPLAY_BYTES as int);
}

fn append_chars(out: &mut Vec<char>, more: &[char])
    ensures
        final(out)@ == old(out)@ + more@,
{
    let ghost start = out@;
    for i in 0..more.len()
        invariant
            out@ == start + more@.take(i as int),
    {
        proof {
            assert(more@.take(i + 1) =~= more@.take(i as int).push(more@[i as int]));
        }
        out.push(more[i]);
    }
    proof {
        assert(more@.take(more@.len() as int) =~= more@);
    }
}

fn replace_all_chars(text: &[char], pat: &[char], rep: &[char]) -> (result: Vec<char>)
    requires
        pat@.len() > 0,
    ensures
        result@ == replaced_all(text@, pat@, rep@),
{
    let n = text.len();
    let m = pat.len();
    let mut out: Vec<char> = Vec::new();
    let mut i: usize = 0;
    proof {
        assert(text@.skip(0) =~= text@);
    }
    while i < n
        invariant
            i <= n,
            n == text@.len(),
            m == pat@.len(),
            m > 0,
            out@ + replaced_all(text@.skip(i as int), pat@, rep@) == replaced_all(text@, pat@, rep@),
        decreases n - i,
    {
        let ghost rest = text@.skip(i as int);
        if n - i < m {
            let tail = slice_chars(text, i, n);
            proof {
                assert(tail@ =~= rest);
                assert(text@.skip(n as int) =~= Seq::<char>::empty());
                assert(out@ + tail@ + Seq::<char>::empty() =~= out@ + tail@);
            }
            append_chars(&mut out, tail.as_slice());
            i = n;
        } else {
            let window = slice_chars(text, i, i + m);
            proof {
                assert(window@ =~= rest.take(m as int));
            }
            if chars_equal(window.as_slice(), pat) {
                proof {
                    assert(rest.skip(m as int) =~= text@.skip(i + m));
                    assert(out@ + (rep@ + replaced_all(rest.skip(m as int), pat@, rep@)) =~= out@ + rep@ + replaced_all(
                        text@.skip(i + m),
                        pat@,
                        rep@,
                    ));
                }
                append_chars(&mut out, rep);
                i = i + m;
            } else {
                proof {
                    assert(rest.skip(1) =~= text@.skip(i + 1));
                    assert(rest[0] == text@[i as int]);
                    assert(out@ + (seq![rest[0]] + replaced_all(rest.skip(1), pat@, rep@)) =~= out@.push(text@[i as int])
                        + replaced_all(text@.skip(i + 1), pat@, rep@));
                }
                out.push(text[i]);
                i = i + 1;
            }
        }
    }
    proof {
        assert(text@.skip(n as int) =~= Seq::<char>::empty());
        assert(out@ + Seq::<char>::empty() =~= out@);
    }
    out
}

fn lower_chars(line: &[char]) -> (result: Vec<char>)
    ensures
        result@ == ascii_lower(line@),
{
    let mut out: Vec<char> = Vec::new();
    for i in 0..line.len()
        invariant
            out@ == ascii_lower(line@.take(i as int)),
    {
        proof {
            assert(ascii_lower(line@.take(i + 1)) =~= ascii_lower(line@.take(i as int)).push(
                ascii_lower_char(line@[i as int]),
            ));
        }
        out.push(to_ascii_lower_char(line[i]));
    }
    proof {
        assert(line@.take(line@.len() as int) =~= line@);
    }
    out
}

fn clean_line_chars(line: &[char]) -> (result: Vec<char>)
    ensures
        result@ == clean_line(line@),
{
    let lower = lower_chars(line);
    let header = chars_of("authorization: bearer");
    match find_from(lower.as_slice(), header.as_slice(), 0) {
        Some(k) => {
            proof {
                lemma_first_match_found(lower@, header@, 0, k as int);
            }
            let mut out = slice_chars(line, 0, k);
            let redacted = chars_of("Authorization: [REDACTED]");
            append_chars(&mut out, redacted.as_slice());
            proof {
                assert(line@.subrange(0, k as int) =~= line@.take(k as int));
            }
            out
        },
        None => {
            let mut out: Vec<char> = Vec::new();
            for i in 0..line.len()
                invariant
                    out@ == line@.take(i as int).map_values(
                        |c: char| if is_control_char(c) && c != '\t' { ' ' } else { c },
                    ),
            {
                let c = line[i];
                let shown = if char_is_control(c) && c != '\t' {
                    ' '
                } else {
                    c
                };
                proof {
                    assert(line@.take(i + 1).map_values(
                        |c: char| if is_control_char(c) && c != '\t' { ' ' } else { c },
                    ) =~= line@.take(i as int).map_values(
                        |c: char| if is_control_char(c) && c != '\t' { ' ' } else { c },
                    ).push(shown));
                }
                out.push(shown);
            }
            proof {
                assert(line@.take(line@.len() as int) =~= line@);
            }
            out
        },
    }
}

fn newline_from(text: &[char], start: usize) -> (end: usize)
    requires
        start <= text@.len(),
    ensures
        end == newline_at_or_after(text@, start as int),
        start <= end <= text@.len(),
{
    proof {
        lemma_newline_bounds(text@, start as int);
    }
    let mut i = start;
    while i < text.len() && text[i] != '\n'
        invariant
            start <= i <= text@.len(),
            newline_at_or_after(text@, start as int) == newline_at_or_after(text@, i as int),
        decreases text@.len() - i,
    {
        i += 1;
    }
    i
}

fn clean_lines(text: &[char]) -> (result: Vec<char>)
    ensures
        result@ == cleaned_lines_from(text@, 0, true),
{
    let n = text.len();
    let mut out: Vec<char> = Vec::new();
    let mut start: usize = 0;
    let mut first = true;
    while start < n
        invariant
            n == text@.len(),
            start <= n,
            first ==> start == 0,
            out@ + cleaned_lines_from(text@, start as int, first) == cleaned_lines_from(text@, 0, true),
        decreases n - start,
    {
        let end = newline_from(text, start);
        let mut line_end = end;
        if end < n && end > start && text[end - 1] == '\r' {
            line_end = end - 1;
        }
        let line = slice_chars(text, start, line_end);
        proof {
            assert(line@ =~= line_at(text@, start as int));
        }
        let cleaned = clean_line_chars(line.as_slice());
        let ghost before = out@;
        if !first {
            out.push('\n');
        }
        append_chars(&mut out, cleaned.as_slice());
        let next = if end < n {
            end + 1
        } else {
            n
        };
        proof {
            let sep: Seq<char> = if first {
                Seq::empty()
            } else {
                seq!['\n']
            };
            assert(out@ =~= before + sep + cleaned@);
            assert(cleaned_lines_from(text@, next as int, false) == cleaned_lines_from(text@, end + 1, false));
            assert(before + (sep + cleaned@ + cleaned_lines_from(text@, end + 1, false)) =~= out@
                + cleaned_lines_from(text@, next as int, false));
        }
        start = next;
        first = false;
    }
    proof {
        assert(out@ + Seq::<char>::empty() =~= out@);
    }
    out
}

fn char_width(c: char) -> (width: usize)
    ensures
        width == encode_scalar(c as u32).len(),
        1 <= width <= 4,
{
    let v = c as u32;
    if v <= 0x7F {
        1
    } else if v <= 0x7FF {
        2
    } else if v <= 0xFFFF {
        3
    } else {
        4
    }
}

proof fn lemma_utf8_len_step(s: Seq<char>, k: int)
    requires
        0 <= k < s.len(),
    ensures
        utf8_len(s.skip(k)) == encode_scalar(s[k] as u32).len() + utf8_len(s.skip(k + 1)),
{
    assert(s.skip(k).drop_first() =~= s.skip(k + 1));
    assert(s.skip(k)[0] == s[k]);
}

proof fn lemma_utf8_len_monotone(s: Seq<char>, j: int, k: int)
    requires
        0 <= j <= k <= s.len(),
    ensures
        utf8_len(s.skip(j)) >= utf8_len(s.skip(k)),
    decreases k - j,
{
    if j < k {
        lemma_utf8_len_step(s, j);
        lemma_utf8_len_monotone(s, j + 1, k);
    }
}

proof fn lemma_within_bytes(s: Seq<char>, limit: int, k: int)
    requires
        0 <= k <= s.len(),
        utf8_len(s.skip(k)) <= limit,
        k > 0 ==> utf8_len(s.skip(k - 1)) > limit,
    ensures
        within_bytes(s, limit) == s.skip(k),
    decreases k,
{
    if k == 0 {
        assert(s.skip(0) =~= s);
    } else {
        lemma_utf8_len_monotone(s, 0, k - 1);
        assert(s.skip(0) =~= s);
        let rest = s.drop_first();
        assert(rest.skip(k - 1) =~= s.skip(k));
        if k > 1 {
            assert(rest.skip(k - 2) =~= s.skip(k - 1));
        }
        lemma_within_bytes(rest, limit, k - 1);
    }
}

fn keep_within_bytes(s: &[char], limit: usize) -> (result: Vec<char>)
    requires
        limit <= MAX_LAUNCHER_DIAGNOSTIC_DISPLAY_BYTES,
    ensures
        result@ == within_bytes(s@, limit as int),
{
    let n = s.len();
    let mut k = n;
    let mut total: usize = 0;
    proof {
        assert(s@.skip(n as int) =~= Seq::<char>::empty());
    }
    loop
        invariant
            n == s@.len(),
            k <= n,
            total == utf8_len(s@.skip(k as int)),
            total <= limit,
            limit <= MAX_LAUNCHER_DIAGNOSTIC_DISPLAY_BYTES,
        ensures
            k <= n,
            total == utf8_len(s@.skip(k as int)),
            total <= limit,
            k > 0 ==> utf8_len(s@.skip(k - 1)) > limit,
        decreases k,
    {
        if k == 0 {
            break;
        }
        let width = char_width(s[k - 1]);
        proof {
            lemma_utf8_len_step(s@, k - 1);
        }
        if total + width > limit {
            break;
        }
        total = total + width;
        k = k - 1;
    }
    proof {
        lemma_within_bytes(s@, limit as int, k as int);
        assert(s@.subrange(k as int, n as int) =~= s@.skip(k as int));
    }
    slice_chars(s, k, n)
}

/// The diagnostic shown for the launcher child's error output `bytes`, with `secret`
/// redacted.
pub fn sanitize_launcher_diagnostic(bytes: &[u8], secret: &str) -> (result: String)
    ensures
        result@ == sanitized_diagnostic(bytes@, secret@),
{
    let start = if bytes.len() > MAX_LAUNCHER_DIAGNOSTIC_INPUT_BYTES {
        bytes.len() - MAX_LAUNCHER_DIAGNOSTIC_INPUT_BYTES
    } else {
        0
    };
    let tail = &bytes[start..bytes.len()];
    proof {
        assert(tail@ =~= if bytes@.len() > MAX_LAUNCHER_DIAGNOSTIC_INPUT_BYTES {
            bytes@.skip(bytes@.len() - MAX_LAUNCHER_DIAGNOSTIC_INPUT_BYTES)
        } else {
            bytes@
        });
    }
    let text = utf8_lossy(tail);
    sanitize_decoded_diagnostic(text.as_str(), secret)
}

/// The diagnostic shown for the launcher child's error output once its last
/// `MAX_LAUNCHER_DIAGNOSTIC_INPUT_BYTES` are decoded as `text`, with `secret` redacted.
pub fn sanitize_decoded_diagnostic(text: &str, secret: &str) -> (result: String)
    ensures
        result@ == sanitized_text(text@, secret@),
{
    let chars = chars_of(text);
    let secret_chars = chars_of(secret);
    let redacted = if secret_chars.len() == 0 {
        chars
    } else {
        let marker = chars_of("[REDACTED]");
        replace_all_chars(chars.as_slice(), secret_chars.as_slice(), marker.as_slice())
    };
    let lines = clean_lines(redacted.as_slice());
    let joined = string_from_chars(lines.as_slice());
    let trimmed_chars = trim_chars(joined.as_str());
    let kept = keep_within_bytes(trimmed_chars.as_slice(), MAX_LAUNCHER_DIAGNOSTIC_DISPLAY_BYTES);
    string_from_chars(kept.as_slice())
}

/// Whether a line that the launcher child printed, read as `fields`, reports readiness.
pub fn launcher_output_is_ready(fields: &ChildEventFields) -> (result: bool)
    ensures
        result == (child_event_of(fields) matches Some(EventView::Ready(_))),
{
    match launcher_child_event(fields) {
        Some(LauncherChildEvent::Ready { .. }) => true,
        _ => false,
    }
}

} // verus!
