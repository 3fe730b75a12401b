//! The CachyOS target: a line-oriented mirror list, passed on unfiltered and
//! in the order of the list.

use crate::config::{AppError, FetchMirrors, LogFormatter};
use crate::fetch::{FetchPlan, FetchPlanView};
use crate::mirror::{mirror_views, resolved, Mirror, MirrorView};
use crate::target_configs::cachyos::CachyOSTarget;
use crate::text::{chars_of, lines_of, remove_all, split_lines, string_of, texts, without};
use crate::urls::{joined_url, parsed_url};
use vstd::prelude::*;
use vstd::string::StringExecFns;

verus! {

/// Whether `line` is a comment: it begins with `#`.
pub open spec fn is_comment(line: Seq<char>) -> bool {
    line.len() > 0 && line[0] == '#'
}

/// The candidate URL that `line` holds: the line without every occurrence of
/// the token `Server = ` and, after that, of the placeholder `$arch/$repo`.
/// A comment holds none, and neither does a line of which nothing is left.
pub open spec fn candidate_of(line: Seq<char>) -> Option<Seq<char>> {
    if is_comment(line) {
        None
    } else {
        let rest = without(without(line, "Server = "@), "$arch/$repo"@);
        if rest.len() == 0 {
            None
        } else {
            Some(rest)
        }
    }
}

/// The candidate URLs of a payload, line by line.
pub open spec fn candidates(payload: Seq<char>) -> Seq<Seq<char>> {
    lines_of(payload).filter_map(|line: Seq<char>| candidate_of(line))
}

/// The mirrors that the candidates resolve to with the test path
/// `path_to_test`, in their order and without a country; candidates that do
/// not resolve are left out.
pub open spec fn resolved_candidates(urls: Seq<Seq<char>>, path_to_test: Seq<char>) -> Seq<MirrorView> {
    urls.filter_map(|url: Seq<char>| resolved(None, url, path_to_test))
}

/// The fetch plan of the CachyOS target: the mirror list proxy first, the
/// list in the distribution's package sources as the fallback.
pub open spec fn cachyos_plan(timeout_ms: u64) -> FetchPlanView {
    FetchPlanView {
        primary_url: "https://cachyos.org/archlinuxmirrorlist/api/cachyos-mirrorlist"@,
        fallback_url: "https://raw.githubusercontent.com/CachyOS/CachyOS-PKGBUILDS/master/cachyos-mirrorlist/cachyos-mirrorlist"@,
        timeout_ms,
        fallback_notice: "# Falling back mirrorlist url"@,
    }
}

/// The views of a sequence of strings.
pub open spec fn string_views(strings: Seq<String>) -> Seq<Seq<char>> {
    strings.map_values(|s: String| s@)
}

/// Reads the candidate URLs out of a line-oriented payload.
pub fn candidate_urls(payload: &str) -> (urls: Vec<String>)
    ensures
        string_views(urls@) == candidates(payload@),
{
    let text = chars_of(payload);
    let lines = split_lines(&text);
    let server = chars_of("Server = ");
    let placeholder = chars_of("$arch/$repo");
    let ghost pick = |line: Seq<char>| candidate_of(line);
    let mut urls: Vec<String> = Vec::new();
    let mut i: usize = 0;
    proof {
        assert(string_views(urls@) =~= texts(lines@).take(0).filter_map(pick));
    }
    while i < lines.len()
        invariant
            i <= lines.len(),
            server@ == "Server = "@,
            placeholder@ == "$arch/$repo"@,
            pick == |line: Seq<char>| candidate_of(line),
            string_views(urls@) == texts(lines@).take(i as int).filter_map(pick),
        decreases lines.len() - i,
    {
        let ghost before = urls@;
        let line = &lines[i];
        proof {
            assert(texts(lines@)[i as int] == line@);
            texts(lines@).lemma_filter_map_take_succ(pick, i as int);
        }
        if line.len() > 0 && line[0] == '#' {
            proof {
                assert(string_views(before) + Seq::<Seq<char>>::empty() =~= string_views(before));
            }
        } else {
            let rest = remove_all(&remove_all(line, &server), &placeholder);
            if rest.len() > 0 {
                let url = string_of(&rest);
                urls.push(url);
                proof {
                    assert(string_views(urls@) =~= string_views(before) + seq![rest@]);
                }
            } else {
                proof {
                    assert(string_views(before) + Seq::<Seq<char>>::empty() =~= string_views(
                        before,
                    ));
                }
            }
        }
        i += 1;
    }
    proof {
        assert(texts(lines@).take(lines@.len() as int) =~= texts(lines@));
    }
    urls
}

/// Resolves the candidates in their order, without a country, and leaves out
/// those that do not resolve.
pub fn resolve_candidates(urls: &Vec<String>, path_to_test: &str) -> (mirrors: Vec<Mirror>)
    ensures
        mirror_views(mirrors@) == resolved_candidates(string_views(urls@), path_to_test@),
        forall|i: int| 0 <= i < mirrors@.len() ==> (#[trigger] mirror_views(mirrors@)[i]).well_formed(),
{
    let ghost path = path_to_test@;
    let ghost resolve = |url: Seq<char>| resolved(None, url, path);
    let mut mirrors: Vec<Mirror> = Vec::new();
    let mut i: usize = 0;
    proof {
        assert(mirror_views(mirrors@) =~= string_views(urls@).take(0).filter_map(resolve));
    }
    while i < urls.len()
        invariant
            i <= urls.len(),
            path == path_to_test@,
            resolve == |url: Seq<char>| resolved(None, url, path),
            mirror_views(mirrors@) == string_views(urls@).take(i as int).filter_map(resolve),
            forall|k: int| 0 <= k < mirrors@.len() ==> (#[trigger] mirror_views(mirrors@)[k]).well_formed(),
        decreases urls.len() - i,
    {
        let ghost before = mirrors@;
        proof {
            assert(string_views(urls@)[i as int] == urls@[i as int]@);
            string_views(urls@).lemma_filter_map_take_succ(resolve, i as int);
        }
        match Mirror::resolve(None, urls[i].as_str(), path_to_test) {
            Some(mirror) => {
                mirrors.push(mirror);
                proof {
                    assert(mirror_views(mirrors@) =~= mirror_views(before) + seq![mirror@]);
                    assert forall|k: int| 0 <= k < mirrors@.len() implies (#[trigger] mirror_views(
                        mirrors@,
                    )[k]).well_formed() by {
                        if k < before.len() {
                            assert(mirror_views(mirrors@)[k] == mirror_views(before)[k]);
                        }
                    }
                }
            },
            None => {
                proof {
                    assert(mirror_views(before) + Seq::<MirrorView>::empty() =~= mirror_views(
                        before,
                    ));
                }
            },
        }
        i += 1;
    }
    proof {
        assert(string_views(urls@).take(urls@.len() as int) =~= string_views(urls@));
    }
    mirrors
}

/// Every mirror that the target yields comes from a line of the payload that
/// is no comment, of which something is left without the tokens, and whose
/// rest parses as a URL onto which the test path joins. So a malformed line
/// gives no mirror.
pub proof fn lemma_mirror_has_valid_line(payload: Seq<char>, path_to_test: Seq<char>, i: int) -> (line: Seq<char>)
    requires
        0 <= i < resolved_candidates(candidates(payload), path_to_test).len(),
    ensures
        lines_of(payload).contains(line),
        !is_comment(line),
        candidate_of(line) matches Some(url) && resolved(None, url, path_to_test) == Some(
            resolved_candidates(candidates(payload), path_to_test)[i],
        ) && parsed_url(url) is Some && joined_url(parsed_url(url)->0, path_to_test) is Some,
{
    let pick = |line: Seq<char>| candidate_of(line);
    let resolve = |url: Seq<char>| resolved(None, url, path_to_test);
    let urls = candidates(payload);
    let mirrors = resolved_candidates(urls, path_to_test);
    assert(mirrors.contains(mirrors[i]));
    urls.lemma_filter_map_contains(resolve, mirrors[i]);
    let url = choose|u: Seq<char>| #[trigger] urls.contains(u) && resolve(u) == Some(mirrors[i]);
    lines_of(payload).lemma_filter_map_contains(pick, url);
    let line = choose|l: Seq<char>| #[trigger] lines_of(payload).contains(l) && pick(l) == Some(url);
    line
}

impl CachyOSTarget {
    /// The architecture as it is written into a mirror line: the placeholder
    /// `$arch` where the configured architecture is `auto`, the configured
    /// architecture otherwise.
    pub open spec fn arch_text(&self) -> Seq<char> {
        if self.arch@ == "auto"@ {
            "$arch"@
        } else {
            self.arch@
        }
    }
}

impl LogFormatter for CachyOSTarget {
    /// The comment prefix, then the message.
    open spec fn comment_line(&self, message: Seq<char>) -> Seq<char> {
        self.comment_prefix@ + message
    }

    /// The server directive of the mirror's URL, with the architecture and
    /// the placeholder for the repository behind it.
    open spec fn mirror_line(&self, mirror: MirrorView) -> Seq<char> {
        "Server = "@ + mirror.url + self.arch_text() + "/$repo"@
    }

    fn format_comment(&self, message: &str) -> (line: String) {
        let mut line = self.comment_prefix.clone();
        line.append(message);
        line
    }

    fn format_mirror(&self, mirror: &Mirror) -> (line: String) {
        let mut line = "Server = ".to_owned();
        line.append(mirror.url.as_str());
        if self.arch == "auto".to_owned() {
            line.append("$arch");
        } else {
            line.append(self.arch.as_str());
        }
        line.append("/$repo");
        line
    }
}

impl FetchMirrors for CachyOSTarget {
    type Payload = String;

    /// This target reports no progress.
    open spec fn progress_of(&self, payload: String) -> Seq<Seq<char>> {
        Seq::empty()
    }

    /// The plan for the configured timeout.
    open spec fn plan(&self) -> FetchPlanView {
        cachyos_plan(self.fetch_mirrors_timeout)
    }

    fn fetch_plan(&self) -> (plan: FetchPlan) {
        FetchPlan {
            primary_url: "https://cachyos.org/archlinuxmirrorlist/api/cachyos-mirrorlist".to_owned(),
            fallback_url: "https://raw.githubusercontent.com/CachyOS/CachyOS-PKGBUILDS/master/cachyos-mirrorlist/cachyos-mirrorlist".to_owned(),
            timeout_ms: self.fetch_mirrors_timeout,
            fallback_notice: "# Falling back mirrorlist url".to_owned(),
        }
    }

    /// Reads the candidate URLs out of the payload and resolves them, in the
    /// order of the list.
    fn fetch_mirrors(&self, fetched: Result<String, AppError>, progress: &mut Vec<String>) -> (result: Result<Vec<Mirror>, AppError>)
        ensures
            fetched matches Ok(payload) ==> (result matches Ok(mirrors) && mirror_views(mirrors@)
                == resolved_candidates(candidates(payload@), self.path_to_test@)),
            *final(progress) == *old(progress),
    {
        match fetched {
            Ok(payload) => {
                let urls = candidate_urls(payload.as_str());
                let mirrors = resolve_candidates(&urls, self.path_to_test.as_str());
                Ok(mirrors)
            },
            Err(error) => Err(error),
        }
    }
}

} // verus!
