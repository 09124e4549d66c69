//! The repositories that Rancher's charts come from.

use vstd::prelude::*;

use crate::text;

verus! {

/// A repository of Rancher's charts.
#[derive(Debug, Clone)]
pub enum RancherRepo {
    Latest,
    Prime,
    PrimeLatest,
    PrimeAlpha,
    CommunityAlpha,
    ReleaseLine(String),
}

/// Which repository it is.
pub enum RepoView {
    Latest,
    Prime,
    PrimeLatest,
    PrimeAlpha,
    CommunityAlpha,
    ReleaseLine(Seq<char>),
}

impl View for RancherRepo {
    type V = RepoView;

    open spec fn view(&self) -> RepoView {
        match self {
            RancherRepo::Latest => RepoView::Latest,
            RancherRepo::Prime => RepoView::Prime,
            RancherRepo::PrimeLatest => RepoView::PrimeLatest,
            RancherRepo::PrimeAlpha => RepoView::PrimeAlpha,
            RancherRepo::CommunityAlpha => RepoView::CommunityAlpha,
            RancherRepo::ReleaseLine(line) => RepoView::ReleaseLine(line@),
        }
    }
}

/// What the name of a repository reads as. `alpha` is another name of `prime-alpha`.
pub open spec fn repo_of(name: Seq<char>) -> Result<RepoView, Seq<char>> {
    if name == "latest"@ {
        Ok(RepoView::Latest)
    } else if name == "prime"@ {
        Ok(RepoView::Prime)
    } else if name == "prime-latest"@ {
        Ok(RepoView::PrimeLatest)
    } else if name == "alpha"@ || name == "prime-alpha"@ {
        Ok(RepoView::PrimeAlpha)
    } else if name == "community-alpha"@ {
        Ok(RepoView::CommunityAlpha)
    } else if "release-"@.is_prefix_of(name) {
        Ok(RepoView::ReleaseLine(name))
    } else {
        Err("Invalid rancher repo: "@ + name)
    }
}

/// Where a repository is served.
pub open spec fn url_of(repo: RepoView) -> Seq<char> {
    match repo {
        RepoView::Latest => "https://releases.rancher.com/server-charts/latest"@,
        RepoView::Prime => "https://charts.rancher.com/server-charts/prime"@,
        RepoView::PrimeLatest => "https://charts.optimus.rancher.io/server-charts/latest"@,
        RepoView::PrimeAlpha => "https://charts.optimus.rancher.io/server-charts/alpha"@,
        RepoView::CommunityAlpha => "https://releases.rancher.com/server-charts/alpha"@,
        RepoView::ReleaseLine(line) => "https://charts.optimus.rancher.io/server-charts/"@ + line,
    }
}

impl RancherRepo {
    /// The repository of a name.
    pub fn parse(s: &str) -> (r: Result<RancherRepo, String>)
        ensures
            match r {
                Ok(repo) => repo_of(s@) == Ok::<RepoView, Seq<char>>(repo@),
                Err(e) => repo_of(s@) == Err::<RepoView, Seq<char>>(e@),
            },
    {
        let cs = text::chars(s);
        let name = cs.as_slice();
        if text::is(name, "latest") {
            Ok(RancherRepo::Latest)
        } else if text::is(name, "prime") {
            Ok(RancherRepo::Prime)
        } else if text::is(name, "prime-latest") {
            Ok(RancherRepo::PrimeLatest)
        } else if text::is(name, "alpha") || text::is(name, "prime-alpha") {
            Ok(RancherRepo::PrimeAlpha)
        } else if text::is(name, "community-alpha") {
            Ok(RancherRepo::CommunityAlpha)
        } else if text::strip_prefix(name, "release-").is_some() {
            Ok(RancherRepo::ReleaseLine(s.to_owned()))
        } else {
            let mut e = "Invalid rancher repo: ".to_owned();
            e.append(s);
            Err(e)
        }
    }

    /// Where the repository is served.
    pub fn value(&self) -> (url: String)
        ensures
            url@ == url_of(self@),
    {
        match self {
            RancherRepo::Latest => "https://releases.rancher.com/server-charts/latest".to_owned(),
            RancherRepo::Prime => "https://charts.rancher.com/server-charts/prime".to_owned(),
            RancherRepo::PrimeLatest =>
                "https://charts.optimus.rancher.io/server-charts/latest".to_owned(),
            RancherRepo::PrimeAlpha =>
                "https://charts.optimus.rancher.io/server-charts/alpha".to_owned(),
            RancherRepo::CommunityAlpha =>
                "https://releases.rancher.com/server-charts/alpha".to_owned(),
            RancherRepo::ReleaseLine(line) => {
                let mut url = "https://charts.optimus.rancher.io/server-charts/".to_owned();
                url.append(line.as_str());
                url
            },
        }
    }
}

impl core::str::FromStr for RancherRepo {
    type Err = String;

    fn from_str(s: &str) -> (r: Result<RancherRepo, String>)
        ensures
            match r {
                Ok(repo) => repo_of(s@) == Ok::<RepoView, Seq<char>>(repo@),
                Err(e) => repo_of(s@) == Err::<RepoView, Seq<char>>(e@),
            },
    {
        RancherRepo::parse(s)
    }
}

/// A release line is served below its own name.
pub proof fn release_lines_are_served_by_name(line: Seq<char>)
    requires
        "release-"@.is_prefix_of(line),
    ensures
        repo_of(line) == Ok::<RepoView, Seq<char>>(RepoView::ReleaseLine(line)),
        url_of(RepoView::ReleaseLine(line)) == "https://charts.optimus.rancher.io/server-charts/"@
            + line,
{
    reveal_strlit("release-");
    reveal_strlit("latest");
    reveal_strlit("prime");
    reveal_strlit("prime-latest");
    reveal_strlit("alpha");
    reveal_strlit("prime-alpha");
    reveal_strlit("community-alpha");
    assert(line[0] == "release-"@[0]);
}

/// Only the known names and release lines name a repository.
pub proof fn other_names_are_refused(name: Seq<char>)
    ensures
        repo_of(name) is Err <==> {
            &&& name != "latest"@
            &&& name != "prime"@
            &&& name != "prime-latest"@
            &&& name != "alpha"@
            &&& name != "prime-alpha"@
            &&& name != "community-alpha"@
            &&& !"release-"@.is_prefix_of(name)
        },
{
}

/// Each known name leads to its own address, below one of the three hosts that serve charts.
pub proof fn known_names_lead_to_their_address(name: Seq<char>, repo: RepoView)
    requires
        repo_of(name) == Ok::<RepoView, Seq<char>>(repo),
    ensures
        name == "latest"@ ==> url_of(repo) == "https://releases.rancher.com/server-charts/latest"@,
        name == "prime"@ ==> url_of(repo) == "https://charts.rancher.com/server-charts/prime"@,
        name == "prime-latest"@ ==> url_of(repo)
            == "https://charts.optimus.rancher.io/server-charts/latest"@,
        name == "alpha"@ || name == "prime-alpha"@ ==> url_of(repo)
            == "https://charts.optimus.rancher.io/server-charts/alpha"@,
        name == "community-alpha"@ ==> url_of(repo)
            == "https://releases.rancher.com/server-charts/alpha"@,
{
    reveal_strlit("latest");
    reveal_strlit("prime");
    reveal_strlit("prime-latest");
    reveal_strlit("alpha");
    reveal_strlit("prime-alpha");
    reveal_strlit("community-alpha");
    assert("latest"@.len() == 6 && "prime"@.len() == 5 && "prime-latest"@.len() == 12);
    assert("alpha"@.len() == 5 && "prime-alpha"@.len() == 11 && "community-alpha"@.len() == 15);
    assert("alpha"@[0] != "prime"@[0]);
}

} // verus!
