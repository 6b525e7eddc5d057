//! The default browser profile named in a `profiles.ini`.

use vstd::prelude::*;
use crate::text::{chars_of, occurs_at_exec, same_chars, starts_with};

verus! {

#[verifier::external_type_specification]
#[verifier::external_body]
pub struct ExIniParseError(ini::ParseError);

/// A section of an INI document.
pub struct IniSection {
    /// `None` for the entries before the first section header.
    pub name: Option<String>,
    /// The key-value pairs, in order.
    pub properties: Vec<(String, String)>,
}

pub type SectionView = (Option<Seq<char>>, Seq<(Seq<char>, Seq<char>)>);

pub open spec fn section_view(s: IniSection) -> SectionView {
    (
        match s.name {
            Some(n) => Some(n@),
            None => None,
        },
        s.properties@.map_values(|p: (String, String)| (p.0@, p.1@)),
    )
}

/// The sections of the INI document `text`; `None` where it does not parse.
pub uninterp spec fn ini_sections(text: Seq<char>) -> Option<Seq<SectionView>>;

/// Relies on `ini::Ini::load_from_str`, `Ini::iter` and `Properties::iter`:
/// the sections in order, each with its name and its pairs in order.
#[verifier::external_body]
fn parse_ini(text: &str) -> (r: Result<Vec<IniSection>, ini::ParseError>)
    ensures
        match r {
            Ok(v) => ini_sections(text@) == Some(v@.map_values(|s: IniSection| section_view(s))),
            Err(_) => ini_sections(text@) is None,
        },
{
    let ini = ini::Ini::load_from_str(text)?;
    Ok(ini.iter().map(|(name, props)| IniSection {
        name: name.map(|n| n.to_owned()),
        properties: props.iter().map(|(k, v)| (k.to_owned(), v.to_owned())).collect(),
    }).collect())
}

pub open spec fn install_prefix() -> Seq<char> {
    seq!['I', 'n', 's', 't', 'a', 'l', 'l']
}

pub open spec fn default_key() -> Seq<char> {
    seq!['D', 'e', 'f', 'a', 'u', 'l', 't']
}

/// The first value of `key` among `props`.
pub open spec fn first_value(props: Seq<(Seq<char>, Seq<char>)>, key: Seq<char>) -> Option<
    Seq<char>,
>
    decreases props.len(),
{
    if props.len() == 0 {
        None
    } else if props[0].0 == key {
        Some(props[0].1)
    } else {
        first_value(props.drop_first(), key)
    }
}

pub open spec fn is_install(s: SectionView) -> bool {
    s.0 matches Some(n) && starts_with(n, install_prefix())
}

/// The `Default` entry of the first section whose name starts with
/// `Install`: `None` where there is no such section.
pub open spec fn install_default(secs: Seq<SectionView>) -> Option<Option<Seq<char>>>
    decreases secs.len(),
{
    if secs.len() == 0 {
        None
    } else if is_install(secs[0]) {
        Some(first_value(secs[0].1, default_key()))
    } else {
        install_default(secs.drop_first())
    }
}

#[derive(Debug, PartialEq, Eq)]
pub enum ProfileError {
    /// `profiles.ini` does not parse.
    Malformed,
    /// No installation section names a default profile.
    NoDefault,
}

/// The default profile path of the first installation that `ini_text`
/// lists, relative to the directory of `profiles.ini`.
pub fn default_profile_path_in(ini_text: &str) -> (r: Result<String, ProfileError>)
    ensures
        match ini_sections(ini_text@) {
            None => r == Err::<String, ProfileError>(ProfileError::Malformed),
            Some(secs) => match install_default(secs) {
                Some(Some(v)) => r matches Ok(p) && p@ == v,
                _ => r == Err::<String, ProfileError>(ProfileError::NoDefault),
            },
        },
{
    let secs = match parse_ini(ini_text) {
        Ok(s) => s,
        Err(_) => return Err(ProfileError::Malformed),
    };
    let ghost sv = secs@.map_values(|s: IniSection| section_view(s));
    assert(ini_sections(ini_text@) == Some(sv));
    let install = chars_of("Install");
    let key = chars_of("Default");
    proof {
        reveal_strlit("Install");
        reveal_strlit("Default");
    }
    assert(install@ =~= install_prefix());
    assert(key@ =~= default_key());
    let mut i: usize = 0;
    assert(sv.subrange(0, sv.len() as int) =~= sv);
    while i < secs.len()
        invariant
            i <= secs@.len(),
            sv == secs@.map_values(|s: IniSection| section_view(s)),
            ini_sections(ini_text@) == Some(sv),
            install@ == install_prefix(),
            key@ == default_key(),
            install_default(sv) == install_default(sv.subrange(i as int, sv.len() as int)),
        decreases secs.len() - i,
    {
        let ghost rest = sv.subrange(i as int, sv.len() as int);
        assert(rest[0] == section_view(secs@[i as int]));
        assert(rest.drop_first() =~= sv.subrange(i + 1, sv.len() as int));
        let sec = &secs[i];
        let is_inst = match &sec.name {
            Some(n) => {
                let nc = chars_of(n.as_str());
                occurs_at_exec(nc.as_slice(), install.as_slice(), 0)
            },
            None => false,
        };
        assert(is_inst == is_install(rest[0]));
        if is_inst {
            let props = &sec.properties;
            let ghost pv = props@.map_values(|p: (String, String)| (p.0@, p.1@));
            assert(rest[0].1 == pv);
            assert(install_default(sv) == Some(first_value(pv, default_key())));
            let mut j: usize = 0;
            assert(pv.subrange(0, pv.len() as int) =~= pv);
            while j < props.len()
                invariant
                    j <= props@.len(),
                    pv == props@.map_values(|p: (String, String)| (p.0@, p.1@)),
                    ini_sections(ini_text@) == Some(sv),
                    install_default(sv) == Some(first_value(pv, default_key())),
                    key@ == default_key(),
                    first_value(pv, default_key()) == first_value(
                        pv.subrange(j as int, pv.len() as int),
                        default_key(),
                    ),
                decreases props.len() - j,
            {
                let ghost prest = pv.subrange(j as int, pv.len() as int);
                assert(prest[0] == (props@[j as int].0@, props@[j as int].1@));
                let kc = chars_of(props[j].0.as_str());
                if same_chars(kc.as_slice(), key.as_slice()) {
                    assert(first_value(prest, default_key()) == Some(prest[0].1));
                    return Ok(props[j].1.clone());
                }
                assert(prest.drop_first() =~= pv.subrange(j + 1, pv.len() as int));
                j += 1;
            }
            assert(pv.subrange(j as int, pv.len() as int) =~= Seq::<(Seq<char>, Seq<char>)>::empty());
            return Err(ProfileError::NoDefault);
        }
        i += 1;
    }
    assert(sv.subrange(i as int, sv.len() as int) =~= Seq::<SectionView>::empty());
    Err(ProfileError::NoDefault)
}

} // verus!
