//! The host aliases that the client configuration declares, and where the
//! files are.

use crate::text::{chars_of, fields, fields_between, line_bounds, lines, pieces, texts};
use vstd::prelude::*;
use vstd::string::StringExecFns;

verus! {

/// The word that starts a declaration of hosts.
pub open spec fn host_keyword() -> Seq<char> {
    seq!['H', 'o', 's', 't']
}

/// The aliases that a line declares: the fields after the first, where the
/// first is the keyword and others follow. Leading blanks do not count, and
/// each alias is taken as it stands, wildcards included.
pub open spec fn line_hosts(line: Seq<char>) -> Seq<Seq<char>> {
    let f = fields(line);
    if f.len() >= 2 && f[0] == host_keyword() {
        f.skip(1)
    } else {
        Seq::empty()
    }
}

/// Reads the declarations of one line, for `map_values`.
pub open spec fn declarer() -> spec_fn(Seq<char>) -> Seq<Seq<char>> {
    |line: Seq<char>| line_hosts(line)
}

/// The aliases that the configuration declares, in the order of the file, a
/// repeated one as often as it is declared.
pub open spec fn declared_hosts(config: Seq<char>) -> Seq<Seq<char>> {
    lines(config).map_values(declarer()).flatten()
}

/// Adds a line feed to an alias, for `map_values`.
pub open spec fn ender() -> spec_fn(Seq<char>) -> Seq<char> {
    |alias: Seq<char>| alias + seq!['\n']
}

/// The listing of some aliases: one per line.
pub open spec fn listing(hosts: Seq<Seq<char>>) -> Seq<char> {
    hosts.map_values(ender()).flatten()
}

/// The aliases that the text of the client configuration declares.
pub fn extract_hosts(config: &str) -> (hosts: Vec<String>)
    ensures
        texts(hosts@) == declared_hosts(config@),
{
    let v = chars_of(config);
    let bounds = line_bounds(&v);
    let keyword = "Host".to_owned();
    proof {
        reveal_strlit("Host");
        assert(keyword@ == host_keyword());
    }
    let ghost ls = lines(config@);
    let mut hosts: Vec<String> = Vec::new();
    let mut k: usize = 0;
    while k < bounds.len()
        invariant
            v@ == config@,
            ls == lines(config@),
            keyword@ == host_keyword(),
            k <= bounds@.len() == ls.len(),
            pieces(v@, bounds@) == ls,
            forall|n: int|
                0 <= n < bounds@.len() ==> (#[trigger] bounds@[n]).0 <= bounds@[n].1 <= v@.len(),
            texts(hosts@) == ls.take(k as int).map_values(declarer()).flatten(),
        decreases bounds.len() - k,
    {
        let (from, to) = bounds[k];
        assert(v@.subrange(from as int, to as int) == ls[k as int]);
        let f = fields_between(&v, from, to);
        let ghost before = texts(hosts@);
        let ghost found = fields(ls[k as int]);
        if f.len() >= 2 && f[0] == keyword {
            assert(texts(f@)[0] == f@[0]@);
            let mut j: usize = 1;
            while j < f.len()
                invariant
                    1 <= j <= f@.len(),
                    texts(f@) == found,
                    texts(hosts@) == before + found.subrange(1, j as int),
                decreases f.len() - j,
            {
                let alias = f[j].clone();
                assert(texts(hosts@.push(alias)) == texts(hosts@).push(found[j as int]));
                assert(found.subrange(1, j + 1) == found.subrange(1, j as int).push(
                    found[j as int],
                ));
                hosts.push(alias);
                j += 1;
            }
            assert(found.subrange(1, j as int) == found.skip(1));
        } else {
            assert(texts(f@)[0] == f@[0]@ || f@.len() == 0);
            assert(before + line_hosts(ls[k as int]) == before);
        }
        proof {
            let done = ls.take(k as int).map_values(declarer());
            assert(ls.take(k + 1).map_values(declarer()) == done.push(line_hosts(ls[k as int])));
            done.lemma_flatten_push(line_hosts(ls[k as int]));
        }
        k += 1;
    }
    assert(ls.take(k as int) == ls);
    hosts
}

/// The listing of some aliases: one per line.
pub fn host_listing(hosts: &Vec<String>) -> (out: String)
    ensures
        out@ == listing(texts(hosts@)),
{
    let mut out = String::new();
    let ghost names = texts(hosts@);
    let mut k: usize = 0;
    assert(names.take(0).map_values(ender()).flatten() == Seq::<char>::empty());
    while k < hosts.len()
        invariant
            k <= hosts@.len(),
            names == texts(hosts@),
            out@ == names.take(k as int).map_values(ender()).flatten(),
        decreases hosts.len() - k,
    {
        proof {
            let done = names.take(k as int).map_values(ender());
            assert(names.take(k + 1).map_values(ender()) == done.push(names[k as int] + seq!['\n']));
            done.lemma_flatten_push(names[k as int] + seq!['\n']);
        }
        out.append(hosts[k].as_str());
        out.push('\n');
        k += 1;
    }
    assert(names.take(k as int) == names);
    out
}

/// The listing of the aliases that the text of the client configuration
/// declares: one per line, in the order of the file.
pub fn list_hosts(config: &str) -> (out: String)
    ensures
        out@ == listing(declared_hosts(config@)),
{
    let hosts = extract_hosts(config);
    host_listing(&hosts)
}

/// Where the client configuration is: `.ssh/config` under the home
/// directory.
pub fn find_config(home: &str) -> (path: String)
    ensures
        path@ == home@ + "/.ssh/config"@,
{
    let mut path = home.to_owned();
    path.append("/.ssh/config");
    path
}

/// Where the history file and the control sockets are kept: `.zzh` under
/// the home directory.
pub fn state_folder(home: &str) -> (path: String)
    ensures
        path@ == home@ + "/.zzh"@,
{
    let mut path = home.to_owned();
    path.append("/.zzh");
    path
}

/// Where the history file is: `history` in the state directory.
pub fn history_file(folder: &str) -> (path: String)
    ensures
        path@ == folder@ + "/history"@,
{
    let mut path = folder.to_owned();
    path.append("/history");
    path
}

} // verus!
