//! Configuration records and path composition. Catalog records hold plain
//! values (rates in cents, the tax rate in ten-thousandths); reading and
//! writing the files they come from is the caller's business.

use vstd::prelude::*;

use crate::strings::{chars_to_string, push_chars, str_to_chars};

verus! {

/// The issuing company, as configured.
#[derive(Debug)]
pub struct Company {
    pub name: String,
    pub address: String,
    pub city: String,
    pub state: String,
    pub zip: String,
    pub country: String,
    pub email: String,
    pub phone: Option<String>,
    pub tax_id: Option<String>,
}

/// One client from the client catalog.
#[derive(Debug)]
pub struct Client {
    pub name: String,
    pub contact: Option<String>,
    pub email: String,
    pub address: String,
    pub city: String,
    pub state: String,
    pub zip: String,
    pub country: Option<String>,
}

/// One line item from the item catalog; `rate` is in cents per unit.
#[derive(Debug)]
pub struct Item {
    pub description: String,
    pub rate: i64,
    pub unit: String,
}

/// Clones an optional string, field for field.
fn clone_opt_string(s: &Option<String>) -> (r: Option<String>)
    ensures
        r == *s,
{
    match s {
        Some(v) => Some(v.clone()),
        None => None,
    }
}

impl Clone for Company {
    /// An exact copy.
    fn clone(&self) -> (r: Company)
        ensures
            r == *self,
    {
        Company {
            name: self.name.clone(),
            address: self.address.clone(),
            city: self.city.clone(),
            state: self.state.clone(),
            zip: self.zip.clone(),
            country: self.country.clone(),
            email: self.email.clone(),
            phone: clone_opt_string(&self.phone),
            tax_id: clone_opt_string(&self.tax_id),
        }
    }
}

impl Clone for Client {
    /// An exact copy.
    fn clone(&self) -> (r: Client)
        ensures
            r == *self,
    {
        Client {
            name: self.name.clone(),
            contact: clone_opt_string(&self.contact),
            email: self.email.clone(),
            address: self.address.clone(),
            city: self.city.clone(),
            state: self.state.clone(),
            zip: self.zip.clone(),
            country: clone_opt_string(&self.country),
        }
    }
}

impl Clone for Item {
    /// An exact copy.
    fn clone(&self) -> (r: Item)
        ensures
            r == *self,
    {
        Item { description: self.description.clone(), rate: self.rate, unit: self.unit.clone() }
    }
}

/// Invoice numbering and money settings; `tax_rate` is in ten-thousandths
/// (825 stands for 8.25%).
#[derive(Debug, Clone)]
pub struct InvoiceSettings {
    pub number_format: String,
    pub currency: String,
    pub currency_symbol: String,
    pub due_days: u32,
    pub tax_rate: u32,
}

/// Where rendered artifacts go.
#[derive(Debug, Clone)]
pub struct PdfSettings {
    pub output_dir: String,
}

/// The full per-directory configuration.
#[derive(Debug, Clone)]
pub struct Config {
    pub company: Company,
    pub invoice: InvoiceSettings,
    pub pdf: PdfSettings,
}

/// The optional global configuration pointing at a config directory.
#[derive(Debug, Clone)]
pub struct GlobalConfig {
    pub config_dir: Option<String>,
}

/// What `expand_path` yields: `~/rest` becomes `home` + `/` + `rest` when a
/// home directory is known, anything else passes through unchanged.
pub open spec fn spec_expanded_path(path: Seq<char>, home: Option<Seq<char>>) -> Seq<char> {
    if path.len() >= 2 && path[0] == '~' && path[1] == '/' && home is Some {
        home->0 + seq!['/'] + path.skip(2)
    } else {
        path
    }
}

/// Expands a leading `~/` to the given home directory.
pub fn expand_path(path: &str, home: &Option<String>) -> (r: String)
    ensures
        r@ == spec_expanded_path(path@, match home {
            Some(h) => Some(h@),
            None => None,
        }),
{
    let n = path.unicode_len();
    if n >= 2 && path.get_char(0) == '~' && path.get_char(1) == '/' {
        if let Some(h) = home {
            let mut v = str_to_chars(h.as_str());
            v.push('/');
            let rest = str_to_chars(path);
            let mut i: usize = 2;
            while i < n
                invariant
                    2 <= i <= n,
                    n == path@.len(),
                    rest@ == path@,
                    v@ == h@ + seq!['/'] + path@.subrange(2, i as int),
                decreases n - i,
            {
                v.push(rest[i]);
                proof {
                    assert(h@ + seq!['/'] + path@.subrange(2, i + 1) =~= (h@ + seq![
                        '/',
                    ] + path@.subrange(2, i as int)).push(path@[i as int]));
                }
                i = i + 1;
            }
            proof {
                assert(path@.subrange(2, n as int) =~= path@.skip(2));
                assert(h@ + seq!['/'] + Seq::<char>::empty() =~= h@ + seq!['/']);
            }
            return chars_to_string(&v);
        }
    }
    let v = str_to_chars(path);
    chars_to_string(&v)
}

/// Whether a path is relative: it does not begin with `/`.
pub open spec fn spec_is_relative(path: Seq<char>) -> bool {
    !(path.len() >= 1 && path[0] == '/')
}

/// What `resolve_output_dir` yields: the expanded output directory, joined
/// under the config directory when it is relative.
pub open spec fn spec_resolved_output_dir(
    output_dir: Seq<char>,
    cfg_dir: Seq<char>,
    home: Option<Seq<char>>,
) -> Seq<char> {
    let expanded = spec_expanded_path(output_dir, home);
    if spec_is_relative(expanded) {
        cfg_dir + seq!['/'] + expanded
    } else {
        expanded
    }
}

/// Resolves `output_dir` against `cfg_dir` when it is a relative path.
pub fn resolve_output_dir(output_dir: &str, cfg_dir: &str, home: &Option<String>) -> (r: String)
    ensures
        r@ == spec_resolved_output_dir(output_dir@, cfg_dir@, match home {
            Some(h) => Some(h@),
            None => None,
        }),
{
    let expanded = expand_path(output_dir, home);
    let relative = expanded.as_str().unicode_len() == 0 || expanded.as_str().get_char(0) != '/';
    if relative {
        let mut v = str_to_chars(cfg_dir);
        v.push('/');
        let e = str_to_chars(expanded.as_str());
        push_chars(&mut v, &e);
        proof {
            assert(v@ =~= cfg_dir@ + seq!['/'] + expanded@);
        }
        chars_to_string(&v)
    } else {
        expanded
    }
}

/// The path of the global configuration file under a home directory, or its
/// display form when no home directory is known.
pub open spec fn spec_global_config_file(home: Option<Seq<char>>) -> Seq<char> {
    match home {
        Some(h) => h + seq!['/'] + ".config/invoicing.toml"@,
        None => "~/.config/invoicing.toml"@,
    }
}

/// The global config file path for the given home directory.
pub fn global_config_file(home: &Option<String>) -> (r: String)
    ensures
        r@ == spec_global_config_file(match home {
            Some(h) => Some(h@),
            None => None,
        }),
{
    match home {
        Some(h) => {
            let mut v = str_to_chars(h.as_str());
            v.push('/');
            let tail = str_to_chars(".config/invoicing.toml");
            push_chars(&mut v, &tail);
            proof {
                assert(v@ =~= h@ + seq!['/'] + ".config/invoicing.toml"@);
            }
            chars_to_string(&v)
        },
        None => {
            let v = str_to_chars("~/.config/invoicing.toml");
            chars_to_string(&v)
        },
    }
}

} // verus!
