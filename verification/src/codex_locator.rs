//! Where the program of the service is looked for, and how one that was found
//! is judged.

use vstd::prelude::*;

use crate::error::{AppError, ErrorModel};
use crate::paths::{below, join, PathStyle};
use crate::text::{
    begins, contains_text, decimal, decimal_text, ends, holds, join_texts, joined,
    lemma_joined_holds, same_text, stands_at, texts, trim_text, trimmed,
};

verus! {

/// How long a program may take to tell its version or its abilities.
pub const PROBE_TIMEOUT_MILLIS: u64 = 5_000;

/// A program of the service.
#[derive(Debug, PartialEq, Eq)]
pub struct CodexInstallation {
    pub path: String,
    pub version: String,
    pub supports_app_server: bool,
}

/// The system that a program is looked for on.
#[derive(Debug, Clone, Copy, PartialEq, Eq, Structural)]
pub enum LocatorPlatform {
    Mac,
    Windows,
    Other,
}

impl LocatorPlatform {
    /// How the system writes its paths.
    pub open spec fn spec_style(self) -> PathStyle {
        match self {
            LocatorPlatform::Windows => PathStyle::Windows,
            _ => PathStyle::Unix,
        }
    }

    /// How the system writes its paths.
    pub fn style(self) -> (r: PathStyle)
        ensures
            r == self.spec_style(),
    {
        match self {
            LocatorPlatform::Windows => PathStyle::Windows,
            _ => PathStyle::Unix,
        }
    }

    /// The file name of the program.
    pub open spec fn program(self) -> Seq<char> {
        match self {
            LocatorPlatform::Windows => "codex.exe"@,
            _ => "codex"@,
        }
    }
}

/// The file name of the program.
pub fn executable_name(platform: LocatorPlatform) -> (r: &'static str)
    ensures
        r@ == platform.program(),
{
    match platform {
        LocatorPlatform::Windows => "codex.exe",
        _ => "codex",
    }
}

/// A path, where the user gave one that is not empty.
pub open spec fn given_path(custom_path: Option<String>) -> Seq<Seq<char>> {
    match custom_path {
        Some(path) if path@.len() > 0 => seq![path@],
        _ => Seq::empty(),
    }
}

/// The program in each of some directories.
pub open spec fn in_directories(platform: LocatorPlatform, dirs: Seq<String>) -> Seq<Seq<char>> {
    Seq::new(
        dirs.len(),
        |i: int| below(platform.spec_style(), dirs[i]@, platform.program()),
    )
}

/// The usual places of the program on a Mac.
pub open spec fn mac_places(home: Option<String>) -> Seq<Seq<char>> {
    let common = seq![
        "/opt/homebrew/bin/codex"@,
        "/usr/local/bin/codex"@,
        "/Applications/ChatGPT.app/Contents/Resources/codex"@,
    ];
    match home {
        Some(dir) => common + seq![
            below(PathStyle::Unix, dir@, ".local/bin/codex"@),
            below(PathStyle::Unix, dir@, ".npm-global/bin/codex"@),
            below(PathStyle::Unix, dir@, ".cargo/bin/codex"@),
        ],
        None => common,
    }
}

/// The usual places of the program below one of the directories of Windows.
pub open spec fn windows_places_below(base: Seq<char>) -> Seq<Seq<char>> {
    let style = PathStyle::Windows;
    seq![
        below(style, below(style, below(style, base, "OpenAI"@), "Codex"@), "codex.exe"@),
        below(style, below(style, base, "npm"@), "codex.exe"@),
        below(style, below(style, below(style, base, "Programs"@), "Codex"@), "codex.exe"@),
    ]
}

/// The usual places of the program on Windows.
pub open spec fn windows_places(bases: Seq<String>) -> Seq<Seq<char>>
    decreases bases.len(),
{
    if bases.len() == 0 {
        Seq::empty()
    } else {
        windows_places(bases.drop_last()) + windows_places_below(bases.last()@)
    }
}

/// All places where the program is looked for, in order: the one that the user
/// gave, the directories of the search path, and the usual places.
pub open spec fn places(
    platform: LocatorPlatform,
    custom_path: Option<String>,
    search_path: Seq<String>,
    home: Option<String>,
    bases: Seq<String>,
) -> Seq<Seq<char>> {
    given_path(custom_path) + in_directories(platform, search_path) + (match platform {
        LocatorPlatform::Mac => mac_places(home),
        LocatorPlatform::Windows => windows_places(bases),
        LocatorPlatform::Other => Seq::empty(),
    })
}

fn push_windows_places(out: &mut Vec<String>, base: &str)
    ensures
        texts(final(out)@) == texts(old(out)@) + windows_places_below(base@),
{
    let style = PathStyle::Windows;
    let ghost before = texts(out@);
    let openai = join(style, join(style, base, "OpenAI").as_str(), "Codex");
    let programs = join(style, join(style, base, "Programs").as_str(), "Codex");
    out.push(join(style, openai.as_str(), "codex.exe"));
    out.push(join(style, join(style, base, "npm").as_str(), "codex.exe"));
    out.push(join(style, programs.as_str(), "codex.exe"));
    assert(texts(out@) =~= before + windows_places_below(base@));
}

/// Lists all places where the program is looked for, whether anything is there
/// or not.
pub fn candidate_places(
    platform: LocatorPlatform,
    custom_path: &Option<String>,
    search_path: &Vec<String>,
    home: &Option<String>,
    bases: &Vec<String>,
) -> (r: Vec<String>)
    ensures
        texts(r@) == places(platform, *custom_path, search_path@, *home, bases@),
{
    let mut out: Vec<String> = Vec::new();
    if let Some(path) = custom_path {
        if !path.as_str().is_empty() {
            out.push(path.clone());
        }
    }
    assert(texts(out@) =~= given_path(*custom_path));
    let ghost given = texts(out@);
    let mut i: usize = 0;
    assert(in_directories(platform, search_path@).take(0) =~= Seq::empty());
    assert(given + Seq::<Seq<char>>::empty() =~= given);
    while i < search_path.len()
        invariant
            i <= search_path@.len(),
            texts(out@) == given + in_directories(platform, search_path@).take(i as int),
        decreases search_path@.len() - i,
    {
        let ghost before = texts(out@);
        let place = join(platform.style(), search_path[i].as_str(), executable_name(platform));
        out.push(place);
        assert(texts(out@) =~= before.push(place@));
        i = i + 1;
        assert(texts(out@) =~= given + in_directories(platform, search_path@).take(i as int));
    }
    assert(in_directories(platform, search_path@).take(i as int) =~= in_directories(
        platform,
        search_path@,
    ));
    let ghost listed = texts(out@);
    match platform {
        LocatorPlatform::Mac => {
            out.push("/opt/homebrew/bin/codex".to_owned());
            out.push("/usr/local/bin/codex".to_owned());
            out.push("/Applications/ChatGPT.app/Contents/Resources/codex".to_owned());
            if let Some(dir) = home {
                out.push(join(PathStyle::Unix, dir.as_str(), ".local/bin/codex"));
                out.push(join(PathStyle::Unix, dir.as_str(), ".npm-global/bin/codex"));
                out.push(join(PathStyle::Unix, dir.as_str(), ".cargo/bin/codex"));
            }
            assert(texts(out@) =~= listed + mac_places(*home));
        },
        LocatorPlatform::Windows => {
            let mut k: usize = 0;
            assert(bases@.take(0) =~= Seq::empty());
            assert(listed + Seq::<Seq<char>>::empty() =~= listed);
            while k < bases.len()
                invariant
                    k <= bases@.len(),
                    texts(out@) == listed + windows_places(bases@.take(k as int)),
                decreases bases@.len() - k,
            {
                assert(bases@.take(k + 1).drop_last() =~= bases@.take(k as int));
                push_windows_places(&mut out, bases[k].as_str());
                k = k + 1;
                assert(texts(out@) =~= listed + windows_places(bases@.take(k as int)));
            }
            assert(bases@.take(k as int) =~= bases@);
        },
        LocatorPlatform::Other => {
            assert(listed + Seq::<Seq<char>>::empty() =~= listed);
        },
    }
    out
}

/// The places that hold a file, each once, in order.
pub open spec fn existing(places: Seq<Seq<char>>, is_file: Seq<bool>) -> Seq<Seq<char>>
    decreases places.len(),
{
    if places.len() == 0 {
        Seq::empty()
    } else {
        let before = existing(places.drop_last(), is_file);
        if is_file[places.len() - 1] && !before.contains(places.last()) {
            before.push(places.last())
        } else {
            before
        }
    }
}

fn has_text(list: &Vec<String>, text: &str) -> (r: bool)
    ensures
        r == texts(list@).contains(text@),
{
    let mut i: usize = 0;
    while i < list.len()
        invariant
            i <= list@.len(),
            forall|j: int| 0 <= j < i ==> texts(list@)[j] != text@,
        decreases list@.len() - i,
    {
        if same_text(list[i].as_str(), text) {
            assert(texts(list@)[i as int] == text@);
            return true;
        }
        i = i + 1;
    }
    false
}

/// Keeps the places that hold a file, each once.
pub fn candidate_paths(places: &Vec<String>, is_file: &Vec<bool>) -> (r: Vec<String>)
    requires
        is_file@.len() == places@.len(),
    ensures
        texts(r@) == existing(texts(places@), is_file@),
{
    let ghost all = texts(places@);
    let mut out: Vec<String> = Vec::new();
    let mut i: usize = 0;
    assert(all.take(0) =~= Seq::empty());
    assert(texts(out@) =~= Seq::empty());
    while i < places.len()
        invariant
            is_file@.len() == places@.len(),
            all == texts(places@),
            i <= places@.len(),
            texts(out@) == existing(all.take(i as int), is_file@),
        decreases places@.len() - i,
    {
        assert(all.take(i + 1).drop_last() =~= all.take(i as int));
        assert(all.take(i + 1).last() == places@[i as int]@);
        if is_file[i] && !has_text(&out, places[i].as_str()) {
            let ghost before = texts(out@);
            out.push(places[i].clone());
            assert(texts(out@) =~= before.push(places@[i as int]@));
        }
        i = i + 1;
    }
    assert(all.take(i as int) =~= all);
    out
}

/// Every place that is kept holds a file, and none is kept twice.
pub proof fn lemma_existing(places: Seq<Seq<char>>, is_file: Seq<bool>)
    requires
        is_file.len() == places.len(),
    ensures
        forall|k: int|
            0 <= k < existing(places, is_file).len() ==> exists|i: int|
                0 <= i < places.len() && is_file[i] && #[trigger] places[i] == (
                #[trigger] existing(places, is_file)[k]),
        existing(places, is_file).no_duplicates(),
    decreases places.len(),
{
    if places.len() > 0 {
        let front = places.drop_last();
        let flags = is_file.drop_last();
        lemma_existing_prefix(front, is_file, flags);
        lemma_existing(front, flags);
        let before = existing(front, is_file);
        assert forall|k: int| 0 <= k < existing(places, is_file).len() implies exists|i: int|
            0 <= i < places.len() && is_file[i] && #[trigger] places[i] == (
            #[trigger] existing(places, is_file)[k]) by {
            if k < before.len() {
                assert(existing(places, is_file)[k] == existing(front, flags)[k]);
                let i = choose|i: int|
                    0 <= i < front.len() && flags[i] && #[trigger] front[i] == existing(
                        front,
                        flags,
                    )[k];
                assert(places[i] == front[i]);
            } else {
                assert(places[places.len() - 1] == existing(places, is_file)[k]);
            }
        }
    }
}

proof fn lemma_existing_prefix(places: Seq<Seq<char>>, a: Seq<bool>, b: Seq<bool>)
    requires
        places.len() <= a.len(),
        places.len() <= b.len(),
        forall|i: int| 0 <= i < places.len() ==> a[i] == b[i],
    ensures
        existing(places, a) == existing(places, b),
    decreases places.len(),
{
    if places.len() > 0 {
        lemma_existing_prefix(places.drop_last(), a, b);
    }
}

/// Where the search for the program starts.
#[derive(Debug, PartialEq, Eq)]
pub enum LocateStart {
    /// Judge the program that the user gave, and no other.
    Probe(String),
    /// Look at the candidates.
    Search,
}

/// Decides where the search for the program starts.
pub fn begin_locate(custom_path: &Option<String>, is_file: bool) -> (r: Result<
    LocateStart,
    AppError,
>)
    ensures
        match custom_path {
            Some(path) if path@.len() > 0 => if is_file {
                r matches Ok(LocateStart::Probe(p)) && p@ == path@
            } else {
                r matches Err(e) && e@ == ErrorModel::CodexUnavailable(
                    "自定义路径不存在或不是文件："@ + path@,
                )
            },
            _ => r matches Ok(LocateStart::Search),
        },
{
    if let Some(path) = custom_path {
        if !path.as_str().is_empty() {
            if is_file {
                return Ok(LocateStart::Probe(path.clone()));
            }
            let mut detail = "自定义路径不存在或不是文件：".to_owned();
            detail.append(path.as_str());
            return Err(AppError::CodexUnavailable(detail));
        }
    }
    Ok(LocateStart::Search)
}

/// What is done after a candidate was judged.
#[derive(Debug, PartialEq, Eq)]
pub enum LocateStep {
    Probe(String),
    Finish(Result<CodexInstallation, AppError>),
}

/// A search through candidates, one after the other.
#[derive(Debug, PartialEq, Eq)]
pub struct Search {
    pub candidates: Vec<String>,
    pub next: usize,
    pub failures: Vec<String>,
}

/// What is noted of a candidate that is no good.
pub open spec fn failure_note(path: Seq<char>, error: ErrorModel) -> Seq<char> {
    path + ": "@ + error.diagnosis()
}

/// The error of a search that found nothing.
pub open spec fn search_failure(failures: Seq<Seq<char>>) -> ErrorModel {
    ErrorModel::CodexUnavailable(
        if failures.len() == 0 {
            "PATH 和常见安装位置中均未找到 codex"@
        } else {
            joined(failures, "\n"@)
        },
    )
}

impl Search {
    /// Whether the search is within its candidates.
    pub open spec fn well_formed(self) -> bool {
        self.next <= self.candidates@.len()
    }

    /// A search that has not begun.
    pub fn new(candidates: Vec<String>) -> (r: Search)
        ensures
            r.well_formed(),
            r.candidates == candidates,
            r.next == 0,
            r.failures@.len() == 0,
    {
        Search { candidates, next: 0, failures: Vec::new() }
    }

    /// Takes the next candidate, or ends where there is none.
    pub fn step(&mut self) -> (r: LocateStep)
        requires
            old(self).well_formed(),
        ensures
            final(self).well_formed(),
            final(self).candidates == old(self).candidates,
            final(self).failures == old(self).failures,
            if old(self).next < old(self).candidates@.len() {
                final(self).next == old(self).next + 1 && (r matches LocateStep::Probe(path)
                    && path@ == old(self).candidates@[old(self).next as int]@)
            } else {
                final(self).next == old(self).next && (r matches LocateStep::Finish(Err(e)) && e@
                    == search_failure(texts(old(self).failures@)))
            },
    {
        if self.next < self.candidates.len() {
            let path = self.candidates[self.next].clone();
            self.next = self.next + 1;
            return LocateStep::Probe(path);
        }
        assert(texts(self.failures@).len() == self.failures@.len());
        let detail = if self.failures.len() == 0 {
            "PATH 和常见安装位置中均未找到 codex".to_owned()
        } else {
            join_texts(&self.failures, "\n")
        };
        LocateStep::Finish(Err(AppError::CodexUnavailable(detail)))
    }

    /// Goes on after a candidate was judged: ends with the first good one.
    pub fn judged(&mut self, path: &str, result: Result<CodexInstallation, AppError>) -> (r:
        LocateStep)
        requires
            old(self).well_formed(),
        ensures
            final(self).well_formed(),
            final(self).candidates == old(self).candidates,
            match result {
                Ok(installation) => r == LocateStep::Finish(Ok(installation)) && *final(self)
                    == *old(self),
                Err(error) => {
                    let failures = texts(old(self).failures@).push(failure_note(path@, error@));
                    &&& texts(final(self).failures@) == failures
                    &&& if old(self).next < old(self).candidates@.len() {
                        final(self).next == old(self).next + 1 && (r matches LocateStep::Probe(p)
                            && p@ == old(self).candidates@[old(self).next as int]@)
                    } else {
                        final(self).next == old(self).next && (r matches LocateStep::Finish(Err(e))
                            && e@ == search_failure(failures))
                    }
                },
            },
    {
        match result {
            Ok(installation) => LocateStep::Finish(Ok(installation)),
            Err(error) => {
                let mut note = path.to_owned();
                note.append(": ");
                note.append(error.diagnostic().as_str());
                let ghost before = texts(self.failures@);
                self.failures.push(note);
                assert(texts(self.failures@) =~= before.push(note@));
                self.step()
            },
        }
    }
}

/// An exit code in words.
pub open spec fn code_words(code: Option<i32>) -> Seq<char> {
    match code {
        Some(n) => "Some("@ + decimal(n as int) + ")"@,
        None => "None"@,
    }
}

/// The version that a program tells, or why it is no good.
pub open spec fn version_in(
    path: Seq<char>,
    success: bool,
    code: Option<i32>,
    output: Seq<char>,
) -> Result<Seq<char>, ErrorModel> {
    if !success {
        Err(ErrorModel::CodexUnavailable(path + " --version 退出码 "@ + code_words(code)))
    } else if trimmed(output).len() == 0 {
        Err(ErrorModel::CodexUnavailable("版本命令没有返回版本号"@))
    } else {
        Ok(trimmed(output))
    }
}

/// Reads the version that a program tells.
pub fn judge_version(path: &str, success: bool, code: Option<i32>, output: &str) -> (r: Result<
    String,
    AppError,
>)
    ensures
        match r {
            Ok(version) => version_in(path@, success, code, output@) == Ok::<
                Seq<char>,
                ErrorModel,
            >(version@),
            Err(e) => version_in(path@, success, code, output@) == Err::<Seq<char>, ErrorModel>(e@),
        },
{
    if !success {
        let mut detail = path.to_owned();
        detail.append(" --version 退出码 ");
        match code {
            Some(n) => {
                let mut shown = "Some(".to_owned();
                shown.append(decimal_text(n as i64).as_str());
                shown.append(")");
                detail.append(shown.as_str());
            },
            None => detail.append("None"),
        }
        return Err(AppError::CodexUnavailable(detail));
    }
    let version = trim_text(output);
    if version.as_str().is_empty() {
        return Err(AppError::CodexUnavailable("版本命令没有返回版本号".to_owned()));
    }
    Ok(version)
}

/// Judges a program of a known version by what it says of its abilities.
pub fn judge_abilities(path: &str, version: String, success: bool, help: &str) -> (r: Result<
    CodexInstallation,
    AppError,
>)
    ensures
        if success && holds(help@, "app server"@) {
            r matches Ok(installation) && installation.path@ == path@ && installation.version
                == version && installation.supports_app_server
        } else {
            r matches Err(e) && e@ == ErrorModel::ProtocolIncompatible(
                "已检测到 "@ + version@ + "，但不支持 codex app-server"@,
            )
        },
{
    if success && contains_text(help, "app server") {
        Ok(CodexInstallation { path: path.to_owned(), version, supports_app_server: true })
    } else {
        let mut detail = "已检测到 ".to_owned();
        detail.append(version.as_str());
        detail.append("，但不支持 codex app-server");
        Err(AppError::ProtocolIncompatible(detail))
    }
}

/// The program is looked for first where the user says, where they say anything,
/// then in every directory of the search path in its order, under the name that it
/// has on the system, and then in the usual places.
pub proof fn lemma_places_are_searched_in_order(
    platform: LocatorPlatform,
    custom_path: Option<String>,
    search_path: Seq<String>,
    home: Option<String>,
    bases: Seq<String>,
    i: int,
)
    ensures
        ({
            let all = places(platform, custom_path, search_path, home, bases);
            let given = custom_path is Some && custom_path->0@.len() > 0;
            let first: int = if given {
                1
            } else {
                0
            };
            &&& given ==> all.len() > 0 && all[0] == custom_path->0@
            &&& all.len() >= first + search_path.len()
            &&& 0 <= i < search_path.len() && platform == LocatorPlatform::Windows ==> all[first + i]
                == below(PathStyle::Windows, search_path[i]@, "codex.exe"@)
            &&& 0 <= i < search_path.len() && platform != LocatorPlatform::Windows ==> all[first + i]
                == below(PathStyle::Unix, search_path[i]@, "codex"@)
            &&& platform == LocatorPlatform::Other ==> all.len() == first + search_path.len()
            &&& platform == LocatorPlatform::Mac ==> all.skip(first + search_path.len())
                == mac_places(home)
            &&& platform == LocatorPlatform::Windows ==> all.skip(first + search_path.len())
                == windows_places(bases)
        }),
{
    let all = places(platform, custom_path, search_path, home, bases);
    let given = custom_path is Some && custom_path->0@.len() > 0;
    let first: int = if given {
        1
    } else {
        0
    };
    let rest = match platform {
        LocatorPlatform::Mac => mac_places(home),
        LocatorPlatform::Windows => windows_places(bases),
        LocatorPlatform::Other => Seq::empty(),
    };
    assert(given_path(custom_path).len() == first);
    assert(all.skip(first + search_path.len()) =~= rest);
}

/// The usual places of the program: on a Mac three of the system and three of the
/// user, on Windows three below each of the directories, none left out.
pub proof fn lemma_usual_places(home: String, front: Seq<String>, base: String, rear: Seq<String>)
    ensures
        mac_places(None).len() == 3,
        mac_places(Some(home)).len() == 6,
        windows_places_below(base@).len() == 3,
        mac_places(None).contains("/opt/homebrew/bin/codex"@),
        mac_places(None).contains("/usr/local/bin/codex"@),
        mac_places(None).contains("/Applications/ChatGPT.app/Contents/Resources/codex"@),
        forall|place: Seq<char>|
            mac_places(None).contains(place) ==> #[trigger] mac_places(Some(home)).contains(place),
        mac_places(Some(home)).contains(below(PathStyle::Unix, home@, ".local/bin/codex"@)),
        mac_places(Some(home)).contains(below(PathStyle::Unix, home@, ".npm-global/bin/codex"@)),
        mac_places(Some(home)).contains(below(PathStyle::Unix, home@, ".cargo/bin/codex"@)),
        windows_places(front.push(base) + rear) == windows_places(front) + windows_places_below(
            base@,
        ) + windows_places(rear),
        windows_places_below(base@).contains(
            below(
                PathStyle::Windows,
                below(PathStyle::Windows, below(PathStyle::Windows, base@, "OpenAI"@), "Codex"@),
                "codex.exe"@,
            ),
        ),
        windows_places_below(base@).contains(
            below(PathStyle::Windows, below(PathStyle::Windows, base@, "npm"@), "codex.exe"@),
        ),
        windows_places_below(base@).contains(
            below(
                PathStyle::Windows,
                below(PathStyle::Windows, below(PathStyle::Windows, base@, "Programs"@), "Codex"@),
                "codex.exe"@,
            ),
        ),
    decreases rear.len(),
{
    let common = mac_places(None);
    let all = mac_places(Some(home));
    assert(common[0] == "/opt/homebrew/bin/codex"@);
    assert(common[1] == "/usr/local/bin/codex"@);
    assert(common[2] == "/Applications/ChatGPT.app/Contents/Resources/codex"@);
    assert forall|place: Seq<char>| common.contains(place) implies #[trigger] all.contains(
        place,
    ) by {
        let i = choose|i: int| 0 <= i < common.len() && common[i] == place;
        assert(all[i] == place);
    }
    assert(all[3] == below(PathStyle::Unix, home@, ".local/bin/codex"@));
    assert(all[4] == below(PathStyle::Unix, home@, ".npm-global/bin/codex"@));
    assert(all[5] == below(PathStyle::Unix, home@, ".cargo/bin/codex"@));
    let three = windows_places_below(base@);
    assert(three.contains(three[0]) && three.contains(three[1]) && three.contains(three[2]));
    let bases = front.push(base) + rear;
    if rear.len() == 0 {
        assert(bases.drop_last() =~= front);
        assert(bases.last() == base);
    } else {
        lemma_usual_places(home, front, base, rear.drop_last());
        assert(bases.drop_last() =~= front.push(base) + rear.drop_last());
        assert(bases.last() == rear.last());
    }
    assert(windows_places(bases) =~= windows_places(front) + windows_places_below(base@)
        + windows_places(rear));
}

/// No place that holds a file is left out, and the places keep their order: what is
/// kept of the first ones is what all of them begin with.
pub proof fn lemma_existing_places_are_kept(
    places: Seq<Seq<char>>,
    is_file: Seq<bool>,
    i: int,
    n: int,
)
    requires
        is_file.len() >= places.len(),
    ensures
        0 <= i < places.len() && is_file[i] ==> existing(places, is_file).contains(places[i]),
        0 <= n <= places.len() ==> existing(places.take(n), is_file).len() <= existing(
            places,
            is_file,
        ).len() && existing(places, is_file).take(
            existing(places.take(n), is_file).len() as int,
        ) == existing(places.take(n), is_file),
    decreases places.len(),
{
    let all = existing(places, is_file);
    if places.len() > 0 {
        let front = places.drop_last();
        let before = existing(front, is_file);
        lemma_existing_places_are_kept(front, is_file, i, n);
        if 0 <= i < places.len() && is_file[i] {
            if before.contains(places[i]) {
                let k = choose|k: int| 0 <= k < before.len() && before[k] == places[i];
                assert(all[k] == places[i]);
            } else {
                assert(i == places.len() - 1);
                assert(all[before.len() as int] == places[i]);
            }
        }
        if 0 <= n < places.len() {
            assert(front.take(n) =~= places.take(n));
            let part = existing(places.take(n), is_file);
            assert(all.take(part.len() as int) =~= before.take(part.len() as int));
        }
    }
    if n == places.len() {
        assert(places.take(n) =~= places);
        assert(all.take(all.len() as int) =~= all);
    }
}

/// A search that found nothing tells of every candidate, by its path and by what was
/// wrong with it.
pub proof fn lemma_search_failure_tells_all(
    failures: Seq<Seq<char>>,
    i: int,
    path: Seq<char>,
    error: ErrorModel,
)
    ensures
        0 <= i < failures.len() ==> (search_failure(failures) matches ErrorModel::CodexUnavailable(
            words,
        ) && holds(words, failures[i])),
        failures.len() == 0 ==> (search_failure(failures) matches ErrorModel::CodexUnavailable(
            words,
        ) && words.len() > 0),
        begins(failure_note(path, error), path),
        ends(failure_note(path, error), error.diagnosis()),
{
    reveal_strlit("PATH 和常见安装位置中均未找到 codex");
    if 0 <= i < failures.len() {
        lemma_joined_holds(failures, "\n"@, i);
    }
    let note = failure_note(path, error);
    let tail = error.diagnosis();
    assert(note.subrange(0, path.len() as int) =~= path);
    assert(note.subrange(note.len() - tail.len(), note.len() as int) =~= tail);
}

/// A program tells its version exactly if it ended well and wrote anything but white
/// space; what it wrote is then the version, without white space at its ends.
pub proof fn lemma_version_is_read(path: Seq<char>, success: bool, code: Option<i32>, output: Seq<char>)
    ensures
        version_in(path, success, code, output) is Ok <==> success && trimmed(output).len() > 0,
        version_in(path, success, code, output) matches Ok(version) ==> version == trimmed(output),
        version_in(path, success, code, output) matches Err(e) ==> e is CodexUnavailable,
        !success ==> (version_in(path, success, code, output) matches Err(
            ErrorModel::CodexUnavailable(words),
        ) && begins(words, path) && (code matches Some(n) ==> holds(words, decimal(n as int)))),
{
    if !success {
        let words = version_in(path, success, code, output)->Err_0->CodexUnavailable_0;
        assert(words.subrange(0, path.len() as int) =~= path);
        if let Some(n) = code {
            let number = decimal(n as int);
            let at: int = path.len() + " --version 退出码 "@.len() + "Some("@.len() as int;
            assert(words.subrange(at, at + number.len()) =~= number);
            assert(stands_at(words, number, at));
        }
    }
}

/// In each directory of a search the program is looked for once, in the order of the
/// directories, under the name that it has on the system.
pub proof fn lemma_program_is_looked_for_everywhere(
    platform: LocatorPlatform,
    dirs: Seq<String>,
    i: int,
)
    requires
        0 <= i < dirs.len(),
    ensures
        in_directories(platform, dirs).len() == dirs.len(),
        platform is Windows ==> in_directories(platform, dirs)[i] == below(
            PathStyle::Windows,
            dirs[i]@,
            "codex.exe"@,
        ),
        !(platform is Windows) ==> in_directories(platform, dirs)[i] == below(
            PathStyle::Unix,
            dirs[i]@,
            "codex"@,
        ),
{
}

/// A path that the user gave is looked at exactly if it is not empty.
pub proof fn lemma_given_path(path: String)
    ensures
        given_path(None).len() == 0,
        path@.len() == 0 ==> given_path(Some(path)).len() == 0,
        path@.len() > 0 ==> given_path(Some(path)) == seq![path@],
{
}

} // verus!
