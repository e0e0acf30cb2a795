//! A package's page in the browser: its install button, where its provider
//! page is, its authors, the category filter beside the results, and the
//! world a data pack goes into.
use vstd::prelude::*;

use crate::domain::{opt_view, strings_view, ProviderId};
use crate::installed::{Installed, InstalledView};
use crate::text::str_eq;

verus! {

/// The install button of a package page.
pub struct InstallButton {
    pub enabled: bool,
    pub label: &'static str,
}

/// Nothing to install when the latest version is already there or while an
/// install runs.
pub open spec fn has_version(installed: Option<InstalledView>, latest: Option<Seq<char>>) -> bool {
    match (installed, latest) {
        (Some(i), Some(l)) => exists|k: int| 0 <= k < i.versions.len() && (#[trigger] i.versions[k]).version_id == l,
        _ => false,
    }
}

pub fn install_button(installed: Option<&Installed>, latest: Option<&String>, installing: bool) -> (r: InstallButton)
    ensures
        ({
            let have = has_version(
                match installed {
                    Some(i) => Some(i@),
                    None => None,
                },
                match latest {
                    Some(l) => Some(l@),
                    None => None,
                },
            );
            &&& r.enabled == (latest is Some && !have && !installing)
            &&& r.label@ == (if installing {
                "Installing..."@
            } else if have {
                "Latest installed"@
            } else {
                "Install latest"@
            })
        }),
{
    let have = match (installed, latest) {
        (Some(i), Some(l)) => i.is_version(l.as_str()),
        _ => false,
    };
    InstallButton {
        enabled: latest.is_some() && !have && !installing,
        label: if installing {
            "Installing..."
        } else if have {
            "Latest installed"
        } else {
            "Install latest"
        },
    }
}

/// A link a provider lists for a project: its label and address.
pub struct ProjectLink {
    pub label: String,
    pub url: String,
}

/// The first link labelled `label` at or after `from`.
pub open spec fn link_labelled(links: Seq<ProjectLink>, label: Seq<char>, from: int) -> Option<int>
    decreases links.len() - from,
{
    if from < 0 || from >= links.len() {
        None
    } else if links[from].label@ == label {
        Some(from)
    } else {
        link_labelled(links, label, from + 1)
    }
}

/// Where a project's page is: for Modrinth, the site, the kind of project and
/// its slug; for CurseForge, the link it lists as "Website"; a local package
/// has none. `site` and `kind_path` are Modrinth's address and the path
/// segment of the project's kind.
pub open spec fn project_url_of(
    provider: ProviderId,
    site: Seq<char>,
    kind_path: Seq<char>,
    slug: Seq<char>,
    links: Seq<ProjectLink>,
) -> Option<Seq<char>> {
    match provider {
        ProviderId::Modrinth => Some(site + kind_path + "/"@ + slug),
        ProviderId::CurseForge => match link_labelled(links, "Website"@, 0) {
            Some(k) => Some(links[k].url@),
            None => None,
        },
        ProviderId::Local => None,
    }
}

pub fn provider_project_url(provider: ProviderId, site: &str, kind_path: &str, slug: &str, links: &Vec<ProjectLink>) -> (r: Option<String>)
    ensures
        opt_view(r) == project_url_of(provider, site@, kind_path@, slug@, links@),
{
    match provider {
        ProviderId::Modrinth => {
            let mut u = crate::text::join2(site, kind_path);
            u.append("/");
            u.append(slug);
            Some(u)
        },
        ProviderId::CurseForge => {
            let mut i: usize = 0;
            while i < links.len()
                invariant
                    i <= links@.len(),
                    provider == ProviderId::CurseForge,
                    link_labelled(links@, "Website"@, 0) == link_labelled(links@, "Website"@, i as int),
                decreases links@.len() - i,
            {
                if str_eq(links[i].label.as_str(), "Website") {
                    return Some(links[i].url.clone());
                }
                i = i + 1;
            }
            None
        },
        ProviderId::Local => None,
    }
}

/// A person credited on a project.
pub struct Author {
    pub name: String,
    pub role: String,
    pub url: Option<String>,
}

/// The authors card: every member, or the author alone as "Author" when the
/// provider lists no members; no card when there is neither.
pub fn authors(members: &Vec<Author>, author: &str) -> (r: Option<Vec<Author>>)
    ensures
        match r {
            None => members@.len() == 0 && author@.len() == 0,
            Some(list) => if members@.len() > 0 {
                list@.len() == members@.len() && forall|k: int|
                    0 <= k < list@.len() ==> (#[trigger] list@[k]).name@ == members@[k].name@ && list@[k].role@
                        == members@[k].role@ && opt_view(list@[k].url) == opt_view(members@[k].url)
            } else {
                author@.len() > 0 && list@.len() == 1 && list@[0].name@ == author@ && list@[0].role@ == "Author"@
                    && list@[0].url is None
            },
        },
{
    if members.len() == 0 && author.unicode_len() == 0 {
        return None;
    }
    let mut list: Vec<Author> = Vec::new();
    if members.len() == 0 {
        list.push(Author { name: String::from_str(author), role: String::from_str("Author"), url: None });
        return Some(list);
    }
    let mut i: usize = 0;
    while i < members.len()
        invariant
            i <= members@.len(),
            list@.len() == i,
            forall|k: int|
                0 <= k < i ==> (#[trigger] list@[k]).name@ == members@[k].name@ && list@[k].role@ == members@[k].role@
                    && opt_view(list@[k].url) == opt_view(members@[k].url),
        decreases members@.len() - i,
    {
        let m = &members[i];
        list.push(Author { name: m.name.clone(), role: m.role.clone(), url: crate::domain::copy_opt(&m.url) });
        i = i + 1;
    }
    Some(list)
}

/// The position of the first `cat` in `cats`, if any.
pub open spec fn position_of(cats: Seq<Seq<char>>, cat: Seq<char>, from: int) -> Option<int>
    decreases cats.len() - from,
{
    if from < 0 || from >= cats.len() {
        None
    } else if cats[from] == cat {
        Some(from)
    } else {
        position_of(cats, cat, from + 1)
    }
}

/// The picked categories after one was pressed: it leaves the list if it was
/// there, else it joins at the end.
pub open spec fn toggled_categories(cats: Seq<Seq<char>>, cat: Seq<char>) -> Seq<Seq<char>> {
    match position_of(cats, cat, 0) {
        Some(i) => cats.remove(i),
        None => cats.push(cat),
    }
}

proof fn lemma_position_of(cats: Seq<Seq<char>>, cat: Seq<char>, from: int)
    requires
        0 <= from,
    ensures
        position_of(cats, cat, from) matches Some(i) ==> from <= i < cats.len() && cats[i] == cat,
        position_of(cats, cat, from) is None ==> forall|k: int| from <= k < cats.len() ==> cats[k] != cat,
    decreases cats.len() - from,
{
    if from < cats.len() && cats[from] != cat {
        lemma_position_of(cats, cat, from + 1);
    }
}

fn find_position(current: &Vec<String>, cat: &str) -> (r: Option<usize>)
    ensures
        match r {
            Some(p) => position_of(strings_view(current@), cat@, 0) == Some(p as int),
            None => position_of(strings_view(current@), cat@, 0) is None,
        },
{
    let ghost cv = strings_view(current@);
    let mut i: usize = 0;
    while i < current.len()
        invariant
            i <= current@.len(),
            cv == strings_view(current@),
            position_of(cv, cat@, 0) == position_of(cv, cat@, i as int),
        decreases current@.len() - i,
    {
        assert(cv[i as int] == current@[i as int]@);
        if str_eq(current[i].as_str(), cat) {
            return Some(i);
        }
        i = i + 1;
    }
    None
}

pub fn toggle_category(current: &Vec<String>, cat: &str) -> (r: Vec<String>)
    ensures
        strings_view(r@) == toggled_categories(strings_view(current@), cat@),
{
    let ghost cv = strings_view(current@);
    proof {
        lemma_position_of(cv, cat@, 0);
    }
    let at = find_position(current, cat);
    let mut out: Vec<String> = Vec::new();
    let mut j: usize = 0;
    while j < current.len()
        invariant
            j <= current@.len(),
            cv == strings_view(current@),
            match at {
                Some(p) => p < current@.len() && strings_view(out@) == (if j <= p {
                    cv.take(j as int)
                } else {
                    cv.remove(p as int).take(j - 1)
                }),
                None => strings_view(out@) == cv.take(j as int),
            },
        decreases current@.len() - j,
    {
        let skip = match at {
            Some(p) => p == j,
            None => false,
        };
        if !skip {
            let ghost before = out@;
            let c = current[j].clone();
            out.push(c);
            proof {
                crate::domain::lemma_strings_view_push(before, c);
                assert(cv[j as int] == c@);
                match at {
                    Some(p) => {
                        if j < p {
                            assert(cv.take(j + 1) =~= cv.take(j as int).push(c@));
                        } else {
                            assert(cv.remove(p as int)[j - 1] == cv[j as int]);
                            assert(cv.remove(p as int).take(j as int) =~= cv.remove(p as int).take(j - 1).push(c@));
                        }
                    },
                    None => {
                        assert(cv.take(j + 1) =~= cv.take(j as int).push(c@));
                    },
                }
            }
        } else {
            proof {
                let p = j;
                assert(cv.take(p as int) =~= cv.remove(p as int).take(p as int));
            }
        }
        j = j + 1;
    }
    match at {
        Some(p) => {
            assert(cv.remove(p as int).take(j - 1) =~= cv.remove(p as int));
        },
        None => {
            assert(cv.take(j as int) =~= cv);
            let ghost before = out@;
            let c = String::from_str(cat);
            out.push(c);
            proof {
                crate::domain::lemma_strings_view_push(before, c);
            }
        },
    }
    out
}

/// Pressing a category that is not picked and then pressing it again leaves
/// the picked categories as they were.
pub proof fn law_category_toggle_twice(cats: Seq<Seq<char>>, cat: Seq<char>)
    requires
        !cats.contains(cat),
    ensures
        toggled_categories(toggled_categories(cats, cat), cat) == cats,
{
    lemma_position_of(cats, cat, 0);
    if position_of(cats, cat, 0) is Some {
        let i = position_of(cats, cat, 0)->0;
        assert(cats[i] == cat);
    }
    let once = cats.push(cat);
    lemma_position_of(once, cat, 0);
    let i = position_of(once, cat, 0);
    assert(once[cats.len() as int] == cat);
    match i {
        Some(k) => {
            if k < cats.len() {
                assert(once[k] == cats[k]);
            }
            assert(once.remove(k) =~= cats);
        },
        None => {},
    }
}

/// The world a data pack is installed into: the one picked, else the one last
/// used for this cluster, whichever still exists first; else the first world.
pub open spec fn install_world_of(names: Seq<Seq<char>>, picked: Option<Seq<char>>, remembered: Option<Seq<char>>) -> Option<Seq<char>> {
    match picked {
        Some(p) if names.contains(p) => Some(p),
        _ => match remembered {
            Some(m) if names.contains(m) => Some(m),
            _ => if names.len() > 0 {
                Some(names[0])
            } else {
                None
            },
        },
    }
}

pub fn install_world(names: &Vec<String>, picked: Option<&String>, remembered: Option<&String>) -> (r: Option<String>)
    ensures
        opt_view(r) == install_world_of(strings_view(names@), match picked {
            Some(p) => Some(p@),
            None => None,
        }, match remembered {
            Some(m) => Some(m@),
            None => None,
        }),
{
    match picked {
        Some(p) => {
            if crate::domain::strings_contain(names, p.as_str()) {
                return Some(p.clone());
            }
        },
        None => {},
    }
    match remembered {
        Some(m) => {
            if crate::domain::strings_contain(names, m.as_str()) {
                return Some(m.clone());
            }
        },
        None => {},
    }
    if names.len() > 0 {
        assert(strings_view(names@)[0] == names@[0]@);
        Some(names[0].clone())
    } else {
        None
    }
}

/// What the world prompt says while it has no world to offer.
pub fn no_world_text(loading: bool) -> (r: &'static str)
    ensures
        r@ == (if loading {
            "Loading worlds..."@
        } else {
            "This version has no worlds yet. Create one in game first."@
        }),
{
    if loading {
        "Loading worlds..."
    } else {
        "This version has no worlds yet. Create one in game first."
    }
}

/// The install the prompt starts: the version waiting to be installed into
/// the world shown, once both are there.
pub fn world_install(world: Option<&String>, pending: Option<&String>) -> (r: Option<(String, String)>)
    ensures
        match r {
            Some((w, v)) => world matches Some(x) && pending matches Some(y) && w@ == x@ && v@ == y@,
            None => world is None || pending is None,
        },
{
    match (world, pending) {
        (Some(w), Some(v)) => Some((w.clone(), v.clone())),
        _ => None,
    }
}

/// The line under a package's name on its card.
pub fn card_byline(author: &str, downloads_text: &str) -> (r: String)
    ensures
        r@ == "by "@ + author@ + " · "@ + downloads_text@ + " downloads"@,
{
    let mut r = crate::text::join3("by ", author, " · ");
    r.append(downloads_text);
    r.append(" downloads");
    r
}

/// The control at the foot of a result: a pill naming how the cluster has
/// the package, or an install button.
pub enum CardControl {
    Pill(&'static str),
    Install { enabled: bool, label: &'static str },
}

pub fn card_control(installed: Option<crate::installed::InstallSource>, latest_known: bool, installing: bool) -> (r: CardControl)
    ensures
        match installed {
            Some(src) => r matches CardControl::Pill(l) && l@ == src.spec_label(),
            None => r matches CardControl::Install { enabled, label } && enabled == (latest_known && !installing)
                && label@ == (if installing {
                "Installing"@
            } else {
                "Install"@
            }),
        },
{
    match installed {
        Some(src) => CardControl::Pill(src.label()),
        None => CardControl::Install {
            enabled: latest_known && !installing,
            label: if installing {
                "Installing"
            } else {
                "Install"
            },
        },
    }
}

/// What installing a version does: a data pack first asks for a world, any
/// other package installs straight away.
pub enum InstallStep {
    AskWorld(String),
    Install(String),
}

pub fn install_step(is_datapack: bool, version_id: String) -> (r: InstallStep)
    ensures
        match r {
            InstallStep::AskWorld(v) => is_datapack && v@ == version_id@,
            InstallStep::Install(v) => !is_datapack && v@ == version_id@,
        },
{
    if is_datapack {
        InstallStep::AskWorld(version_id)
    } else {
        InstallStep::Install(version_id)
    }
}

} // verus!
