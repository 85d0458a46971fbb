//! The settings of an environment.
use vstd::prelude::*;

verus! {

/// The scheme put in front of a URL that has none.
#[derive(Clone, Copy, PartialEq, Eq, Structural, Debug)]
pub enum DefaultScheme {
    Https,
    Http,
}

/// The text that a [`DefaultScheme`] puts in front of a URL.
pub open spec fn scheme_text(s: DefaultScheme) -> Seq<char> {
    match s {
        DefaultScheme::Https => seq!['h', 't', 't', 'p', 's', ':', '/', '/'],
        DefaultScheme::Http => seq!['h', 't', 't', 'p', ':', '/', '/'],
    }
}

impl Default for DefaultScheme {
    fn default() -> (s: DefaultScheme)
        ensures
            s == DefaultScheme::Http,
    {
        DefaultScheme::Http
    }
}

impl DefaultScheme {
    /// The scheme with its separator: `https://` or `http://`.
    pub fn to_string(&self) -> (r: String)
        ensures
            r@ == scheme_text(*self),
    {
        match self {
            DefaultScheme::Https => {
                let r = "https://".to_owned();
                proof {
                    reveal_strlit("https://");
                }
                r
            },
            DefaultScheme::Http => {
                let r = "http://".to_owned();
                proof {
                    reveal_strlit("http://");
                }
                r
            },
        }
    }
}

/// The settings of an environment.
#[derive(Clone, Copy, PartialEq, Eq, Structural, Debug)]
pub struct EnvConfig {
    pub default_scheme: DefaultScheme,
}

impl Default for EnvConfig {
    fn default() -> (c: EnvConfig)
        ensures
            c.default_scheme == DefaultScheme::Http,
    {
        EnvConfig { default_scheme: DefaultScheme::Http }
    }
}

} // verus!
