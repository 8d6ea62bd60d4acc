//! `nav`: move the active tab around.

use vstd::prelude::*;

use crate::commands;
use crate::commands::Refusal;
use crate::policy;
use crate::policy::{Challenge, Logins, Refused};
use crate::text;

verus! {

/// `nav go`: where to go.
pub fn go(option: Option<String>, positional: Option<String>) -> (r: Result<String, Refusal>)
    ensures
        match commands::first(option, positional) {
            Some(url) => r matches Ok(found) && found == url,
            None => r matches Err(refusal) && commands::refuses(
                refusal,
                "usage"@,
                "a url is required"@,
            ),
        },
{
    match commands::either(option, positional) {
        Some(url) => Ok(url),
        None => Err(commands::refuse("usage", "a url is required")),
    }
}

/// A page that was gone to.
#[derive(Debug)]
pub struct Navigated {
    pub url: String,
}

/// `nav go` and `nav home`: what they come to, given the address the tab was sent
/// to.
pub fn navigated(done: Result<String, String>) -> (r: Result<Navigated, Refusal>)
    ensures
        match done {
            Ok(url) => r matches Ok(gone) && gone.url == url,
            Err(e) => r matches Err(refusal) && commands::refuses(refusal, "webview"@, e@),
        },
{
    match commands::from_view(done) {
        Ok(url) => Ok(Navigated { url }),
        Err(refusal) => Err(refusal),
    }
}

/// A host whose certificate is to be trusted.
#[derive(Debug)]
pub struct Trusting {
    pub host: String,
    /// The page that was refused, to be loaded again. Nothing is loaded where
    /// some other host is trusted than the one on screen.
    pub reload: Option<String>,
}

/// The host that is named, if one is.
pub open spec fn named_host(host: Option<Seq<char>>) -> Option<Seq<char>> {
    match host {
        Some(host) => commands::nonempty(Some(text::trimmed(host))),
        None => None,
    }
}

/// `nav trust`: accept the certificate of a host that was refused.
///
/// Defaults to the refusal that is on screen: typing a hostname you have just
/// been shown is work the browser can do for you, and mistyping it here would
/// trust the wrong name.
pub fn trust_certificate(host: Option<&str>, refused: Option<&Refused>) -> (r: Result<
    Trusting,
    Refusal,
>)
    ensures
        ({
            let asked = commands::first(
                named_host(text::maybe(host)),
                match refused {
                    Some(refused) => Some(refused.host@),
                    None => None,
                },
            );
            match asked {
                Some(name) => r matches Ok(trusted) && trusted.host@ == name && text::maybe_owned(
                    trusted.reload,
                ) == match refused {
                    Some(refused) => if refused.host@ == name {
                        Some(refused.uri@)
                    } else {
                        None
                    },
                    None => None,
                },
                None => r matches Err(refusal) && commands::refuses(
                    refusal,
                    "usage"@,
                    "no certificate has been refused, so there is nothing to trust; name a host to trust it anyway"@,
                ),
            }
        }),
{
    let typed = match host {
        Some(host) => commands::unless_empty(Some(text::trim(host))),
        None => None,
    };
    let host = match typed {
        Some(host) => host,
        None => match refused {
            Some(refused) => refused.host.clone(),
            None => return Err(
                commands::refuse(
                    "usage",
                    "no certificate has been refused, so there is nothing to trust; name a host to trust it anyway",
                ),
            ),
        },
    };
    let reload = match refused {
        Some(refused) => if text::same(refused.host.as_str(), host.as_str()) {
            Some(refused.uri.clone())
        } else {
            None
        },
        None => None,
    };
    Ok(Trusting { host, reload })
}

/// A host whose certificate is trusted.
#[derive(Debug)]
pub struct Trusted {
    pub host: String,
    /// The page that was refused, now loading again.
    pub url: String,
}

/// `nav trust`: what it comes to, given how accepting the certificate and loading
/// the page again went. Nothing is loaded where there is nothing to load.
pub fn trusted(
    trusting: Trusting,
    accepted: Result<(), String>,
    loaded: Result<(), String>,
) -> (r: Result<Trusted, Refusal>)
    ensures
        match (accepted, trusting.reload, loaded) {
            (Err(e), _, _) => r matches Err(refusal) && commands::refuses(refusal, "webview"@, e@),
            (Ok(_), Some(_), Err(e)) => r matches Err(refusal) && commands::refuses(
                refusal,
                "webview"@,
                e@,
            ),
            _ => r matches Ok(done) && done.host == trusting.host && done.url@
                == commands::or_empty(text::maybe_owned(trusting.reload)),
        },
{
    if let Err(refusal) = commands::from_view(accepted) {
        return Err(refusal);
    }
    if trusting.reload.is_some() {
        if let Err(refusal) = commands::from_view(loaded) {
            return Err(refusal);
        }
    }
    Ok(Trusted { host: trusting.host, url: commands::or_nothing(trusting.reload) })
}

/// A login that was given.
#[derive(Debug)]
pub struct LoggedIn {
    pub host: String,
    pub user: String,
    /// The page that asked, to be loaded again. The request that is waiting
    /// belongs to a load this tab has already left, so it is the fresh load's
    /// challenge that is answered.
    pub uri: String,
}

/// `nav login`: answer a site asking for a username and a password.
pub fn login(
    logins: &mut Logins,
    challenge: &mut Option<Challenge>,
    user: Option<String>,
    password: Option<String>,
) -> (r: Result<LoggedIn, Refusal>)
    ensures
        ({
            let name = commands::or_empty(text::maybe_owned(user));
            if name.len() == 0 {
                &&& r matches Err(refusal) && commands::refuses(refusal, "usage"@, "which user?"@)
                &&& final(logins)@ == old(logins)@
                &&& *final(challenge) == *old(challenge)
            } else {
                match *old(challenge) {
                    None => {
                        &&& r matches Err(refusal) && commands::refuses(
                            refusal,
                            "state"@,
                            "nothing is asking for a login"@,
                        )
                        &&& final(logins)@ == old(logins)@
                        &&& *final(challenge) == *old(challenge)
                    },
                    Some(asking) => {
                        let key = policy::filed(asking.host@, asking.port);
                        &&& r matches Ok(done) && done.host@ == asking.host@ && done.user@ == name
                            && done.uri@ == asking.uri@
                        &&& final(logins)@ == policy::other_logins(old(logins)@, key).push(
                            (key, name, commands::or_empty(text::maybe_owned(password))),
                        )
                        &&& *final(challenge) is None
                    },
                }
            }
        }),
{
    let user = commands::or_nothing(user);
    let password = commands::or_nothing(password);
    if user.as_str().is_empty() {
        return Err(commands::refuse("usage", "which user?"));
    }
    let mut asking: Option<Challenge> = None;
    std::mem::swap(&mut asking, challenge);
    match asking {
        None => Err(commands::refuse("state", "nothing is asking for a login")),
        Some(asking) => {
            let key = asking.key();
            logins.remember_login(key.as_str(), user.as_str(), password.as_str());
            Ok(LoggedIn { host: asking.host, user, uri: asking.uri })
        },
    }
}

/// `nav login`: what it comes to, given how loading the page again went.
pub fn logged_in(login: LoggedIn, loaded: Result<(), String>) -> (r: Result<LoggedIn, Refusal>)
    ensures
        match loaded {
            Ok(_) => r == Ok::<LoggedIn, Refusal>(login),
            Err(e) => r matches Err(refusal) && commands::refuses(refusal, "webview"@, e@),
        },
{
    match commands::from_view(loaded) {
        Ok(_) => Ok(login),
        Err(refusal) => Err(refusal),
    }
}

/// A move along a tab's own history.
#[derive(Debug, Clone, Copy, PartialEq, Eq, Structural)]
pub enum HistoryAction {
    Back,
    Forward,
    Stop,
    Reload,
    /// Reload, ignoring everything already cached.
    HardReload,
}

/// `nav reload`.
pub fn reload(hard: bool) -> (r: HistoryAction)
    ensures
        r == if hard {
            HistoryAction::HardReload
        } else {
            HistoryAction::Reload
        },
{
    if hard {
        HistoryAction::HardReload
    } else {
        HistoryAction::Reload
    }
}

// ---------------------------------------------------------------------------
// Laws
// ---------------------------------------------------------------------------

/// A login that was given is what the site's next question is answered with.
pub proof fn law_login_answers_the_next_question(
    known: Seq<(Seq<char>, Seq<char>, Seq<char>)>,
    host: Seq<char>,
    port: u32,
    user: Seq<char>,
    password: Seq<char>,
)
    ensures
        policy::login_under(
            policy::other_logins(known, policy::filed(host, port)).push(
                (policy::filed(host, port), user, password),
            ),
            policy::filed(host, port),
        ) == Some((user, password)),
{
    let key = policy::filed(host, port);
    policy::law_login_is_remembered(known, key, user, password, key);
}

} // verus!
