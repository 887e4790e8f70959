//! Deployment configuration read from, and written back into, the lines
//! of a `key=value` environment file. Reading folds recognized keys over
//! a default configuration; writing replaces only the matching key lines
//! in place and passes every other line through unchanged.

use vstd::prelude::*;
use vstd::string::*;
use crate::text::{
    find_first, first_pos, has_prefix, is_digit, is_digit_char, lemma_first_pos_found, str_eq,
    str_starts_with, str_trim, trim_spec,
};
use crate::extract::{digits_val, parse_digits_u64};

verus! {

/// Configuration of the orchestrated deployment.
pub struct IgraConfig {
    pub node_name: String,
    pub health_api_key: Option<String>,
    pub kaspad_host: String,
    pub kaspad_port: u16,
    pub network: String,
}

/// The mathematical view of an `IgraConfig`.
pub struct ConfigModel {
    pub node_name: Seq<char>,
    pub health_api_key: Option<Seq<char>>,
    pub kaspad_host: Seq<char>,
    pub kaspad_port: u16,
    pub network: Seq<char>,
}

impl View for IgraConfig {
    type V = ConfigModel;

    open spec fn view(&self) -> ConfigModel {
        ConfigModel {
            node_name: self.node_name@,
            health_api_key: match self.health_api_key {
                Some(k) => Some(k@),
                None => None,
            },
            kaspad_host: self.kaspad_host@,
            kaspad_port: self.kaspad_port,
            network: self.network@,
        }
    }
}

/// The configuration before any environment line is applied.
pub open spec fn default_model() -> ConfigModel {
    ConfigModel {
        node_name: "merlin"@,
        health_api_key: None,
        kaspad_host: "host.docker.internal"@,
        kaspad_port: 17110,
        network: "testnet"@,
    }
}

impl Default for IgraConfig {
    fn default() -> (r: IgraConfig)
        ensures
            r@ == default_model(),
    {
        IgraConfig {
            node_name: "merlin".to_owned(),
            health_api_key: None,
            kaspad_host: "host.docker.internal".to_owned(),
            kaspad_port: 17110,
            network: "testnet".to_owned(),
        }
    }
}

/// Every character is an ASCII digit.
pub open spec fn all_digits(s: Seq<char>) -> bool {
    forall|j: int| 0 <= j < s.len() ==> is_digit_char(s[j])
}

/// The digit run of a port value: an optional leading `+` is accepted,
/// as the standard unsigned parse accepts one.
pub open spec fn port_digits(v: Seq<char>) -> Seq<char> {
    if v.len() > 0 && v[0] == '+' {
        v.drop_first()
    } else {
        v
    }
}

/// A trimmed value sets the port when, after an optional leading `+`, it
/// is a nonempty digit run whose value fits in a `u16`.
pub open spec fn parses_as_port(v: Seq<char>) -> bool {
    port_digits(v).len() > 0 && all_digits(port_digits(v)) && digits_val(port_digits(v))
        <= u16::MAX
}

/// The line split at its first `=`, when it has one.
pub open spec fn split_once_eq(l: Seq<char>) -> Option<(Seq<char>, Seq<char>)> {
    if first_pos(l, '=') < 0 {
        None
    } else {
        Some((l.take(first_pos(l, '=')), l.skip(first_pos(l, '=') + 1)))
    }
}

/// The effect of one environment line on a configuration: comment and
/// empty lines are skipped, a recognized `key=value` line (key and value
/// trimmed) updates its field, anything else is ignored. An empty or
/// sentinel `<your-api-key>` value leaves the API key unset, and a port
/// value that is not a `u16` digit run (an optional leading `+` is
/// accepted) leaves the port unchanged.
pub open spec fn apply_env_line(m: ConfigModel, l: Seq<char>) -> ConfigModel {
    if l.len() == 0 || l[0] == '#' {
        m
    } else {
        match split_once_eq(l) {
            None => m,
            Some((k, v)) => {
                let kt = trim_spec(k);
                let vt = trim_spec(v);
                if kt == "NODE_ID"@ {
                    ConfigModel { node_name: vt, ..m }
                } else if kt == "HEALTH_CHECK_API_KEY"@ {
                    if vt.len() > 0 && vt != "<your-api-key>"@ {
                        ConfigModel { health_api_key: Some(vt), ..m }
                    } else {
                        m
                    }
                } else if kt == "KASPAD_HOST"@ {
                    ConfigModel { kaspad_host: vt, ..m }
                } else if kt == "KASPAD_BORSH_PORT"@ {
                    if parses_as_port(vt) {
                        ConfigModel { kaspad_port: digits_val(port_digits(vt)) as u16, ..m }
                    } else {
                        m
                    }
                } else if kt == "NETWORK"@ {
                    ConfigModel { network: vt, ..m }
                } else {
                    m
                }
            },
        }
    }
}

/// The configuration the environment lines yield, folded in order over
/// the defaults.
pub open spec fn config_from_lines(lines: Seq<Seq<char>>) -> ConfigModel
    decreases lines.len(),
{
    if lines.len() == 0 {
        default_model()
    } else {
        apply_env_line(config_from_lines(lines.drop_last()), lines.last())
    }
}

/// Parses a trimmed value as a port: after an optional leading `+`, a
/// nonempty ASCII digit run whose value fits in a `u16`.
fn parse_port(v: &str) -> (r: Option<u16>)
    ensures
        match r {
            Some(x) => parses_as_port(v@) && x as int == digits_val(port_digits(v@)),
            None => !parses_as_port(v@),
        },
{
    let n = v.unicode_len();
    if n == 0 {
        return None;
    }
    let start: usize = if v.get_char(0) == '+' {
        1
    } else {
        0
    };
    if start == n {
        return None;
    }
    let d = v.substring_char(start, n);
    proof {
        assert(d@ =~= port_digits(v@));
    }
    let m = d.unicode_len();
    let mut i: usize = 0;
    while i < m
        invariant
            m == d@.len(),
            d@ == port_digits(v@),
            0 <= i <= m,
            forall|j: int| 0 <= j < i ==> is_digit_char(d@[j]),
        decreases m - i,
    {
        if !is_digit(d.get_char(i)) {
            return None;
        }
        i += 1;
    }
    match parse_digits_u64(d) {
        Some(x) => {
            if x <= 65535 {
                Some(x as u16)
            } else {
                None
            }
        },
        None => None,
    }
}

/// Applies one environment line to the configuration.
fn apply_line(config: &mut IgraConfig, line: &str)
    ensures
        final (config)@ == apply_env_line(old(config)@, line@),
{
    let n = line.unicode_len();
    if line.is_empty() {
        return ;
    }
    if line.get_char(0) == '#' {
        return ;
    }
    match find_first(line, '=') {
        None => {},
        Some(p) => {
            proof {
                lemma_first_pos_found(line@, '=');
            }
            let key = line.substring_char(0, p);
            let value = line.substring_char(p + 1, n);
            proof {
                assert(key@ =~= line@.take(p as int));
                assert(value@ =~= line@.skip(p + 1));
            }
            let kt = str_trim(key);
            let vt = str_trim(value);
            if str_eq(kt, "NODE_ID") {
                config.node_name = vt.to_owned();
            } else if str_eq(kt, "HEALTH_CHECK_API_KEY") {
                if !vt.is_empty() && !str_eq(vt, "<your-api-key>") {
                    config.health_api_key = Some(vt.to_owned());
                }
            } else if str_eq(kt, "KASPAD_HOST") {
                config.kaspad_host = vt.to_owned();
            } else if str_eq(kt, "KASPAD_BORSH_PORT") {
                match parse_port(vt) {
                    Some(port) => {
                        config.kaspad_port = port;
                    },
                    None => {},
                }
            } else if str_eq(kt, "NETWORK") {
                config.network = vt.to_owned();
            }
        },
    }
}

impl IgraConfig {
    /// The configuration the given environment-file lines describe,
    /// folded in order over the defaults.
    pub fn from_env_lines(lines: &Vec<String>) -> (r: IgraConfig)
        ensures
            r@ == config_from_lines(lines.deep_view()),
    {
        let ghost dv = lines.deep_view();
        let mut config = IgraConfig::default();
        let mut i: usize = 0;
        proof {
            assert(dv.take(0) =~= Seq::<Seq<char>>::empty());
        }
        while i < lines.len()
            invariant
                dv == lines.deep_view(),
                dv.len() == lines@.len(),
                0 <= i <= lines@.len(),
                config@ == config_from_lines(dv.take(i as int)),
            decreases lines@.len() - i,
        {
            proof {
                assert(dv[i as int] == lines@[i as int]@);
                assert(dv.take(i + 1).drop_last() =~= dv.take(i as int));
                assert(dv.take(i + 1).last() == dv[i as int]);
            }
            apply_line(&mut config, lines[i].as_str());
            i += 1;
        }
        proof {
            assert(dv.take(lines@.len() as int) =~= dv);
        }
        config
    }
}

/// The decimal numeral of a nonnegative integer, `d` mapped to its digit.
pub open spec fn digit_char(d: int) -> char {
    if d == 0 {
        '0'
    } else if d == 1 {
        '1'
    } else if d == 2 {
        '2'
    } else if d == 3 {
        '3'
    } else if d == 4 {
        '4'
    } else if d == 5 {
        '5'
    } else if d == 6 {
        '6'
    } else if d == 7 {
        '7'
    } else if d == 8 {
        '8'
    } else {
        '9'
    }
}

/// The decimal numeral of a nonnegative integer.
pub open spec fn dec_str(n: int) -> Seq<char>
    decreases n,
{
    if n < 10 {
        seq![digit_char(n)]
    } else {
        dec_str(n / 10).push(digit_char(n % 10))
    }
}

/// The one-character numeral of a single digit.
fn digit_str(d: u16) -> (r: &'static str)
    requires
        d < 10,
    ensures
        r@ == seq![digit_char(d as int)],
{
    if d == 0 {
        let r = "0";
        proof {
            reveal_strlit("0");
            assert(r@ =~= seq![digit_char(d as int)]);
        }
        r
    } else if d == 1 {
        let r = "1";
        proof {
            reveal_strlit("1");
            assert(r@ =~= seq![digit_char(d as int)]);
        }
        r
    } else if d == 2 {
        let r = "2";
        proof {
            reveal_strlit("2");
            assert(r@ =~= seq![digit_char(d as int)]);
        }
        r
    } else if d == 3 {
        let r = "3";
        proof {
            reveal_strlit("3");
            assert(r@ =~= seq![digit_char(d as int)]);
        }
        r
    } else if d == 4 {
        let r = "4";
        proof {
            reveal_strlit("4");
            assert(r@ =~= seq![digit_char(d as int)]);
        }
        r
    } else if d == 5 {
        let r = "5";
        proof {
            reveal_strlit("5");
            assert(r@ =~= seq![digit_char(d as int)]);
        }
        r
    } else if d == 6 {
        let r = "6";
        proof {
            reveal_strlit("6");
            assert(r@ =~= seq![digit_char(d as int)]);
        }
        r
    } else if d == 7 {
        let r = "7";
        proof {
            reveal_strlit("7");
            assert(r@ =~= seq![digit_char(d as int)]);
        }
        r
    } else if d == 8 {
        let r = "8";
        proof {
            reveal_strlit("8");
            assert(r@ =~= seq![digit_char(d as int)]);
        }
        r
    } else {
        let r = "9";
        proof {
            reveal_strlit("9");
            assert(r@ =~= seq![digit_char(d as int)]);
        }
        r
    }
}

/// Renders a port number as its decimal numeral.
pub fn u16_to_string(x: u16) -> (r: String)
    ensures
        r@ == dec_str(x as int),
    decreases x,
{
    if x < 10 {
        digit_str(x).to_owned()
    } else {
        let mut s = u16_to_string(x / 10);
        s.append(digit_str(x % 10));
        proof {
            assert(dec_str(x as int) =~= dec_str(x as int / 10) + seq![digit_char(x as int % 10)]);
        }
        s
    }
}

/// How one environment line is rewritten: a line opening with a
/// recognized `key=` is replaced by that key and the configuration's
/// current value (an unset API key renders empty); every other line
/// passes through unchanged.
pub open spec fn render_line(m: ConfigModel, l: Seq<char>) -> Seq<char> {
    if has_prefix(l, "NODE_ID="@) {
        "NODE_ID="@ + m.node_name
    } else if has_prefix(l, "HEALTH_CHECK_API_KEY="@) {
        "HEALTH_CHECK_API_KEY="@ + match m.health_api_key {
            Some(k) => k,
            None => Seq::empty(),
        }
    } else if has_prefix(l, "KASPAD_HOST="@) {
        "KASPAD_HOST="@ + m.kaspad_host
    } else if has_prefix(l, "KASPAD_BORSH_PORT="@) {
        "KASPAD_BORSH_PORT="@ + dec_str(m.kaspad_port as int)
    } else if has_prefix(l, "NETWORK="@) {
        "NETWORK="@ + m.network
    } else {
        l
    }
}

/// All environment lines rewritten, order preserved.
pub open spec fn rendered_lines(m: ConfigModel, lines: Seq<Seq<char>>) -> Seq<Seq<char>> {
    lines.map_values(|l: Seq<char>| render_line(m, l))
}

/// The lines joined with a single line feed between them.
pub open spec fn joined_lines(lines: Seq<Seq<char>>) -> Seq<char>
    decreases lines.len(),
{
    if lines.len() == 0 {
        Seq::empty()
    } else if lines.len() == 1 {
        lines[0]
    } else {
        joined_lines(lines.drop_last()) + seq!['\n'] + lines.last()
    }
}

impl IgraConfig {
    /// Rewrites the lines of an environment file in place: recognized
    /// key lines are replaced with this configuration's values, all
    /// others pass through unchanged, and line order is preserved.
    pub fn rewrite_env_lines(&self, lines: &Vec<String>) -> (r: Vec<String>)
        ensures
            r.deep_view() == rendered_lines(self@, lines.deep_view()),
    {
        let ghost dv = lines.deep_view();
        let mut out: Vec<String> = Vec::new();
        let mut i: usize = 0;
        while i < lines.len()
            invariant
                dv == lines.deep_view(),
                dv.len() == lines@.len(),
                0 <= i <= lines@.len(),
                out.deep_view().len() == i,
                forall|k: int| 0 <= k < i ==> out.deep_view()[k] == render_line(self@, dv[k]),
            decreases lines@.len() - i,
        {
            proof {
                assert(dv[i as int] == lines@[i as int]@);
            }
            let line = &lines[i];
            let rendered: String = if str_starts_with(line.as_str(), "NODE_ID=") {
                let mut s = "NODE_ID=".to_owned();
                s.append(self.node_name.as_str());
                s
            } else if str_starts_with(line.as_str(), "HEALTH_CHECK_API_KEY=") {
                let mut s = "HEALTH_CHECK_API_KEY=".to_owned();
                match &self.health_api_key {
                    Some(k) => {
                        s.append(k.as_str());
                    },
                    None => {},
                }
                s
            } else if str_starts_with(line.as_str(), "KASPAD_HOST=") {
                let mut s = "KASPAD_HOST=".to_owned();
                s.append(self.kaspad_host.as_str());
                s
            } else if str_starts_with(line.as_str(), "KASPAD_BORSH_PORT=") {
                let mut s = "KASPAD_BORSH_PORT=".to_owned();
                s.append(u16_to_string(self.kaspad_port).as_str());
                s
            } else if str_starts_with(line.as_str(), "NETWORK=") {
                let mut s = "NETWORK=".to_owned();
                s.append(self.network.as_str());
                s
            } else {
                line.clone()
            };
            let ghost prev = out@;
            let ghost prev_dv = out.deep_view();
            out.push(rendered);
            proof {
                assert forall|k: int|
                    0 <= k < i + 1 implies out.deep_view()[k] == render_line(self@, dv[k]) by {
                    assert(out.deep_view()[k] == out@[k].deep_view());
                    if k < i {
                        assert(out@[k] == prev[k]);
                        assert(prev_dv[k] == prev[k].deep_view());
                        assert(prev[k].deep_view() == prev[k]@);
                        assert(out.deep_view()[k] == render_line(self@, dv[k]));
                    } else {
                        assert(out@[k] == rendered);
                        assert(rendered.deep_view() == rendered@);
                        assert(rendered@ =~= render_line(self@, dv[k]));
                        assert(out.deep_view()[k] == render_line(self@, dv[k]));
                    }
                }
            }
            i += 1;
        }
        proof {
            assert(out.deep_view() =~= rendered_lines(self@, dv));
        }
        out
    }
}

/// Joins lines with a single line feed between them, as an environment
/// file is written back.
pub fn join_lines(lines: &Vec<String>) -> (r: String)
    ensures
        r@ == joined_lines(lines.deep_view()),
{
    let ghost dv = lines.deep_view();
    let mut out = String::new();
    let mut i: usize = 0;
    proof {
        assert(dv.take(0) =~= Seq::<Seq<char>>::empty());
        reveal_strlit("\n");
    }
    while i < lines.len()
        invariant
            dv == lines.deep_view(),
            dv.len() == lines@.len(),
            0 <= i <= lines@.len(),
            out@ == joined_lines(dv.take(i as int)),
        decreases lines@.len() - i,
    {
        proof {
            assert(dv[i as int] == lines@[i as int]@);
            assert(dv.take(i + 1).drop_last() =~= dv.take(i as int));
            assert(dv.take(i + 1).last() == dv[i as int]);
            reveal_strlit("\n");
        }
        if i > 0 {
            out.append("\n");
            proof {
                assert("\n"@ =~= seq!['\n']);
            }
        }
        out.append(lines[i].as_str());
        proof {
            if i == 0 {
                assert(dv.take(1)[0] == dv[0]);
                assert(out@ =~= joined_lines(dv.take(1)));
            }
        }
        i += 1;
    }
    proof {
        assert(dv.take(lines@.len() as int) =~= dv);
    }
    out
}

} // verus!
