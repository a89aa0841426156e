use vstd::prelude::*;
use crate::error::AppError;
use crate::utils::{
    lines_of, seps_of, join_views, zip_views, line_split, wf_split, wf_sep, clean_line,
    insertable_line, seps_inserted, batch_applied, is_prefix_of, has_substring, dec_str,
    decimal_string, split_lines, starts_with, contains_substring, replace_multiple_parallel,
    insert_line_at, lemma_line_split_wf, lemma_split_of_join, views_of,
};
use std::collections::HashMap;
use vstd::string::StrSliceExecFns;
use vstd::string::StringExecFns;

verus! {

broadcast use vstd::std_specs::hash::group_hash_axioms;

// ---------------------------------------------------------------------------
// The settings-file patcher.
//
// A settings file is a key=value, line-oriented text. Every line that starts
// with one of the recognized key prefixes is forced to a fixed value or to
// the configured resolution; every other line is left alone. If no line
// starts with `FullscreenMode=` afterwards, that key is inserted right after
// the first line.
// ---------------------------------------------------------------------------
/// A line starts with one of the recognized settings keys.
pub open spec fn line_recognized(l: Seq<char>) -> bool {
    ||| is_prefix_of("bShouldLetterbox="@, l)
    ||| is_prefix_of("bLastConfirmedShouldLetterbox="@, l)
    ||| is_prefix_of("bUseVSync="@, l)
    ||| is_prefix_of("bUseDynamicResolution="@, l)
    ||| is_prefix_of("ResolutionSizeX="@, l)
    ||| is_prefix_of("LastUserConfirmedResolutionSizeX="@, l)
    ||| is_prefix_of("ResolutionSizeY="@, l)
    ||| is_prefix_of("LastUserConfirmedResolutionSizeY="@, l)
    ||| is_prefix_of("LastConfirmedFullscreenMode="@, l)
    ||| is_prefix_of("PreferredFullscreenMode="@, l)
    ||| is_prefix_of("FullscreenMode="@, l)
}

/// What a single line becomes: recognized keys are forced, in the order the
/// prefixes are tried; anything else is unchanged.
pub open spec fn patched_line(l: Seq<char>, width: u32, height: u32) -> Seq<char> {
    if is_prefix_of("bShouldLetterbox="@, l) {
        "bShouldLetterbox=False"@
    } else if is_prefix_of("bLastConfirmedShouldLetterbox="@, l) {
        "bLastConfirmedShouldLetterbox=False"@
    } else if is_prefix_of("bUseVSync="@, l) {
        "bUseVSync=False"@
    } else if is_prefix_of("bUseDynamicResolution="@, l) {
        "bUseDynamicResolution=False"@
    } else if is_prefix_of("ResolutionSizeX="@, l) {
        "ResolutionSizeX="@ + dec_str(width as nat)
    } else if is_prefix_of("LastUserConfirmedResolutionSizeX="@, l) {
        "LastUserConfirmedResolutionSizeX="@ + dec_str(width as nat)
    } else if is_prefix_of("ResolutionSizeY="@, l) {
        "ResolutionSizeY="@ + dec_str(height as nat)
    } else if is_prefix_of("LastUserConfirmedResolutionSizeY="@, l) {
        "LastUserConfirmedResolutionSizeY="@ + dec_str(height as nat)
    } else if is_prefix_of("LastConfirmedFullscreenMode="@, l) {
        "LastConfirmedFullscreenMode=2"@
    } else if is_prefix_of("PreferredFullscreenMode="@, l) {
        "PreferredFullscreenMode=2"@
    } else if is_prefix_of("FullscreenMode="@, l) {
        "FullscreenMode=2"@
    } else {
        l
    }
}

/// Every line patched.
pub open spec fn patched_lines(ls: Seq<Seq<char>>, width: u32, height: u32) -> Seq<Seq<char>> {
    ls.map_values(|l: Seq<char>| patched_line(l, width, height))
}

/// Some line starts with `FullscreenMode=`.
pub open spec fn has_fullscreen_line(ls: Seq<Seq<char>>) -> bool {
    exists|i: int| 0 <= i < ls.len() && is_prefix_of("FullscreenMode="@, #[trigger] ls[i])
}

/// The whole settings content after a patch: every line's body patched with
/// its terminator kept, and a `FullscreenMode=2` line inserted after the
/// first line when none of the patched lines carries that key.
pub open spec fn settings_patched(s: Seq<char>, width: u32, height: u32) -> Seq<char> {
    let pl = patched_lines(lines_of(s), width, height);
    if has_fullscreen_line(pl) {
        join_views(pl, seps_of(s))
    } else {
        join_views(pl.insert(1, "FullscreenMode=2"@), seps_inserted(seps_of(s), 1))
    }
}

/// A decimal rendering is a line body: no newline, and it ends in a digit.
proof fn lemma_dec_str_clean(n: nat)
    ensures
        insertable_line(dec_str(n)),
        dec_str(n).len() >= 1,
    decreases n,
{
    if n >= 10 {
        lemma_dec_str_clean(n / 10);
    }
}

/// Patching keeps every line free of `'\n'`, and a forced line never ends
/// in `'\r'`: only an untouched line can.
proof fn lemma_patched_line_clean(l: Seq<char>, width: u32, height: u32)
    requires
        clean_line(l),
    ensures
        clean_line(patched_line(l, width, height)),
        patched_line(l, width, height) == l || insertable_line(patched_line(l, width, height)),
{
    reveal_strlit("bShouldLetterbox=False");
    reveal_strlit("bLastConfirmedShouldLetterbox=False");
    reveal_strlit("bUseVSync=False");
    reveal_strlit("bUseDynamicResolution=False");
    reveal_strlit("ResolutionSizeX=");
    reveal_strlit("LastUserConfirmedResolutionSizeX=");
    reveal_strlit("ResolutionSizeY=");
    reveal_strlit("LastUserConfirmedResolutionSizeY=");
    reveal_strlit("LastConfirmedFullscreenMode=2");
    reveal_strlit("PreferredFullscreenMode=2");
    reveal_strlit("FullscreenMode=2");
    lemma_dec_str_clean(width as nat);
    lemma_dec_str_clean(height as nat);
}

/// Replaces one recognized line of the settings scan by its forced value.
fn forced_line(line: &str, width: u32, height: u32) -> (r: Option<String>)
    ensures
        match r {
            Some(v) => line_recognized(line@) && v@ == patched_line(line@, width, height),
            None => !line_recognized(line@),
        },
{
    if starts_with(line, "bShouldLetterbox=") {
        Some(String::from_str("bShouldLetterbox=False"))
    } else if starts_with(line, "bLastConfirmedShouldLetterbox=") {
        Some(String::from_str("bLastConfirmedShouldLetterbox=False"))
    } else if starts_with(line, "bUseVSync=") {
        Some(String::from_str("bUseVSync=False"))
    } else if starts_with(line, "bUseDynamicResolution=") {
        Some(String::from_str("bUseDynamicResolution=False"))
    } else if starts_with(line, "ResolutionSizeX=") {
        let mut v = String::from_str("ResolutionSizeX=");
        v.append(decimal_string(width).as_str());
        Some(v)
    } else if starts_with(line, "LastUserConfirmedResolutionSizeX=") {
        let mut v = String::from_str("LastUserConfirmedResolutionSizeX=");
        v.append(decimal_string(width).as_str());
        Some(v)
    } else if starts_with(line, "ResolutionSizeY=") {
        let mut v = String::from_str("ResolutionSizeY=");
        v.append(decimal_string(height).as_str());
        Some(v)
    } else if starts_with(line, "LastUserConfirmedResolutionSizeY=") {
        let mut v = String::from_str("LastUserConfirmedResolutionSizeY=");
        v.append(decimal_string(height).as_str());
        Some(v)
    } else if starts_with(line, "LastConfirmedFullscreenMode=") {
        Some(String::from_str("LastConfirmedFullscreenMode=2"))
    } else if starts_with(line, "PreferredFullscreenMode=") {
        Some(String::from_str("PreferredFullscreenMode=2"))
    } else if starts_with(line, "FullscreenMode=") {
        Some(String::from_str("FullscreenMode=2"))
    } else {
        None
    }
}

/// Forces the recognized settings keys of `content` to the configured width,
/// height and fixed values, and guarantees a `FullscreenMode=` line: exactly
/// `settings_patched(content@, width, height)`.
pub fn patch_settings_content(content: String, width: u32, height: u32) -> (r: String)
    ensures
        r@ == settings_patched(content@, width, height),
{
    let ghost ls0 = lines_of(content@);
    let ghost ss0 = seps_of(content@);
    let (lines, seps) = split_lines(content.as_str());
    let n = lines.len();
    let mut replacements: HashMap<usize, String> = HashMap::new();
    let mut i: usize = 0;
    while i < n
        invariant
            n == ls0.len(),
            views_of(lines@) == ls0,
            lines@.len() == n,
            0 <= i <= n,
            forall|k: usize| #[trigger]
                replacements@.dom().contains(k) ==> 1 <= k <= i && line_recognized(ls0[k - 1])
                    && replacements@[k]@ == patched_line(ls0[k - 1], width, height),
            forall|j: int|
                0 <= j < i && line_recognized(#[trigger] ls0[j]) ==> replacements@.dom().contains(
                    (j + 1) as usize,
                ),
        decreases n - i,
    {
        match forced_line(lines[i].as_str(), width, height) {
            Some(v) => {
                replacements.insert(i + 1, v);
            },
            None => {},
        }
        i = i + 1;
    }
    let patched = match replace_multiple_parallel(content, &replacements) {
        Ok(r) => r,
        Err(_) => {
            proof {
                assert(false);
            }
            String::new()
        },
    };
    let ghost pb = patched_lines(ls0, width, height);
    proof {
        assert(batch_applied(ls0, replacements@) =~= pb);
    }
    let (plines, pseps) = split_lines(patched.as_str());
    proof {
        lemma_line_split_wf(content@);
        let ps = line_split(content@);
        assert(forall|k: int| 0 <= k < ps.len() ==> ls0[k] == (#[trigger] ps[k]).0);
        assert(forall|k: int| 0 <= k < ps.len() ==> ss0[k] == (#[trigger] ps[k]).1);
        let z = zip_views(pb, ss0);
        assert forall|k: int| 0 <= k < z.len() implies clean_line((#[trigger] z[k]).0) by {
            lemma_patched_line_clean(ls0[k], width, height);
        }
        assert forall|k: int| 0 <= k < z.len() - 1 implies wf_sep((#[trigger] z[k]).1) by {
            assert(wf_sep(ps[k].1));
        }
        assert(z[z.len() - 1].1 == ps[ps.len() - 1].1);
        assert forall|k: int|
            0 <= k < z.len() implies !((#[trigger] z[k]).1.len() == 1 && z[k].0.len() > 0 && z[
            k
        ].0[z[k].0.len() - 1] == '\r') by {
            lemma_patched_line_clean(ls0[k], width, height);
            if z[k].0 == ls0[k] {
                assert(!(ps[k].1.len() == 1 && ps[k].0.len() > 0 && ps[k].0[ps[k].0.len() - 1]
                    == '\r'));
            }
        }
        assert(wf_split(z));
        lemma_split_of_join(z);
        assert(line_split(patched@) == z);
        assert(lines_of(patched@) =~= pb);
        assert(seps_of(patched@) =~= ss0);
        assert(views_of(plines@) == pb);
    }
    let m = plines.len();
    let mut found = false;
    let mut j: usize = 0;
    while j < m
        invariant
            m == plines@.len(),
            0 <= j <= m,
            views_of(plines@) == pb,
            found <==> exists|k: int|
                0 <= k < j && is_prefix_of("FullscreenMode="@, #[trigger] views_of(plines@)[k]),
        decreases m - j,
    {
        proof {
            assert(views_of(plines@)[j as int] == plines@[j as int]@);
        }
        if starts_with(plines[j].as_str(), "FullscreenMode=") {
            found = true;
        }
        j = j + 1;
    }
    if found {
        patched
    } else {
        match insert_line_at(patched, 1, 1, String::from_str("FullscreenMode=2")) {
            Ok(r) => r,
            Err(_) => {
                proof {
                    assert(false);
                }
                String::new()
            },
        }
    }
}

/// Patches the per-user and the shared settings contents in one call; the
/// surrounding application reads the two files beforehand and writes the two
/// results back under its write-protection toggle.
pub fn modify_game_resolution_config_for_last_user(
    user_content: String,
    public_content: String,
    width: u32,
    height: u32,
) -> (r: (String, String))
    ensures
        r.0@ == settings_patched(user_content@, width, height),
        r.1@ == settings_patched(public_content@, width, height),
{
    let user_patched = patch_settings_content(user_content, width, height);
    let public_patched = patch_settings_content(public_content, width, height);
    (user_patched, public_patched)
}

// ---------------------------------------------------------------------------
// Last-login-user lookup over the contents the application reads from disk.
// ---------------------------------------------------------------------------
/// The value of the first `LastKnownUser=` line of the machine config text,
/// or `NotFound` when no line carries that key.
pub fn get_last_login_user(user_info: &str) -> (r: Result<String, AppError>)
    ensures
        match r {
            Ok(u) => exists|i: int|
                {
                    &&& 0 <= i < lines_of(user_info@).len()
                    &&& is_prefix_of("LastKnownUser="@, #[trigger] lines_of(user_info@)[i])
                    &&& forall|j: int|
                        0 <= j < i ==> !is_prefix_of(
                            "LastKnownUser="@,
                            #[trigger] lines_of(user_info@)[j],
                        )
                    &&& u@ == lines_of(user_info@)[i].subrange(
                        "LastKnownUser="@.len() as int,
                        lines_of(user_info@)[i].len() as int,
                    )
                },
            Err(e) => e == AppError::NotFound && forall|i: int|
                0 <= i < lines_of(user_info@).len() ==> !is_prefix_of(
                    "LastKnownUser="@,
                    #[trigger] lines_of(user_info@)[i],
                ),
        },
{
    let (lines, seps) = split_lines(user_info);
    let n = lines.len();
    let mut i: usize = 0;
    while i < n
        invariant
            n == lines@.len(),
            views_of(lines@) == lines_of(user_info@),
            0 <= i <= n,
            forall|j: int|
                0 <= j < i ==> !is_prefix_of(
                    "LastKnownUser="@,
                    #[trigger] lines_of(user_info@)[j],
                ),
        decreases n - i,
    {
        proof {
            assert(views_of(lines@)[i as int] == lines@[i as int]@);
        }
        if starts_with(lines[i].as_str(), "LastKnownUser=") {
            let line = &lines[i];
            let len = line.as_str().unicode_len();
            let plen = "LastKnownUser=".unicode_len();
            let value = line.as_str().substring_char(plen, len).to_owned();
            proof {
                assert(is_prefix_of("LastKnownUser="@, lines_of(user_info@)[i as int]));
                assert(value@ == lines_of(user_info@)[i as int].subrange(
                    "LastKnownUser="@.len() as int,
                    lines_of(user_info@)[i as int].len() as int,
                ));
            }
            return Ok(value);
        }
        i = i + 1;
    }
    Err(AppError::NotFound)
}

/// The first entry name that contains the user name, or `NotFound`; the
/// entries are the names the application listed in the config folder.
pub fn find_user_folder(entries: &Vec<String>, user: &str) -> (r: Result<String, AppError>)
    ensures
        match r {
            Ok(f) => exists|i: int|
                {
                    &&& 0 <= i < entries@.len()
                    &&& f@ == #[trigger] entries@[i]@
                    &&& has_substring(entries@[i]@, user@)
                    &&& forall|j: int| 0 <= j < i ==> !has_substring(#[trigger] entries@[j]@, user@)
                },
            Err(e) => e == AppError::NotFound && forall|i: int|
                0 <= i < entries@.len() ==> !has_substring(#[trigger] entries@[i]@, user@),
        },
{
    let n = entries.len();
    let mut i: usize = 0;
    while i < n
        invariant
            n == entries@.len(),
            0 <= i <= n,
            forall|j: int| 0 <= j < i ==> !has_substring(#[trigger] entries@[j]@, user@),
        decreases n - i,
    {
        if contains_substring(entries[i].as_str(), user) {
            return Ok(entries[i].clone());
        }
        i = i + 1;
    }
    Err(AppError::NotFound)
}

// ---------------------------------------------------------------------------
// The two settings-file locations, relative to the game's install path.
// The target application is Windows-only, so the separators are backslashes;
// the application appends these to the configured install path.
// ---------------------------------------------------------------------------
/// The per-user settings file below the given user folder.
pub fn user_settings_path(game_path: &str, user_folder: &str) -> (p: String)
    ensures
        p@ == game_path@ + "\\ShooterGame\\Saved\\Config\\"@ + user_folder@
            + "\\WindowsClient\\GameUserSettings.ini"@,
{
    let mut p = game_path.to_owned();
    p.append("\\ShooterGame\\Saved\\Config\\");
    p.append(user_folder);
    p.append("\\WindowsClient\\GameUserSettings.ini");
    p
}

/// The shared settings file.
pub fn public_settings_path(game_path: &str) -> (p: String)
    ensures
        p@ == game_path@ + "\\ShooterGame\\Saved\\Config\\WindowsClient\\GameUserSettings.ini"@,
{
    let mut p = game_path.to_owned();
    p.append("\\ShooterGame\\Saved\\Config\\WindowsClient\\GameUserSettings.ini");
    p
}

/// The machine config that records the last logged-in user.
pub fn riot_machine_config_path(game_path: &str) -> (p: String)
    ensures
        p@ == game_path@ + "\\ShooterGame\\Saved\\Config\\WindowsClient\\RiotLocalMachine.ini"@,
{
    let mut p = game_path.to_owned();
    p.append("\\ShooterGame\\Saved\\Config\\WindowsClient\\RiotLocalMachine.ini");
    p
}

/// The config folder whose entries are searched for the user folder.
pub fn config_folder_path(game_path: &str) -> (p: String)
    ensures
        p@ == game_path@ + "\\ShooterGame\\Saved\\Config"@,
{
    let mut p = game_path.to_owned();
    p.append("\\ShooterGame\\Saved\\Config");
    p
}

} // verus!
