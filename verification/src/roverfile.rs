use vstd::prelude::*;
use vstd::string::*;

use crate::errors::RoverError;
use crate::order::{lemma_sorted_insert, name_lt, names_sorted, str_lt};

verus! {

broadcast use vstd::seq_lib::group_to_multiset_ensures;

/// One named entry of a roverfile: the local file to write, a human
/// description, and the remote location the data comes from.
pub struct Dataset {
    pub filename: String,
    pub description: String,
    pub url: String,
}

/// Mathematical image of a `Dataset`: its three fields as character sequences.
pub ghost struct DatasetView {
    pub filename: Seq<char>,
    pub description: Seq<char>,
    pub url: Seq<char>,
}

impl View for Dataset {
    type V = DatasetView;

    open spec fn view(&self) -> DatasetView {
        DatasetView {
            filename: self.filename@,
            description: self.description@,
            url: self.url@,
        }
    }
}

impl Dataset {
    /// The three display lines for this dataset: the local filename, the
    /// description, and the source location.
    pub fn show_info(&self) -> (r: Vec<String>)
        ensures
            r@.len() == 3,
            r@[0]@ == "Filename    : "@ + self@.filename,
            r@[1]@ == "Description : "@ + self@.description,
            r@[2]@ == "Source      : "@ + self@.url,
    {
        let mut l0 = "Filename    : ".to_owned();
        l0.append(self.filename.as_str());
        let mut l1 = "Description : ".to_owned();
        l1.append(self.description.as_str());
        let mut l2 = "Source      : ".to_owned();
        l2.append(self.url.as_str());
        let mut r: Vec<String> = Vec::new();
        r.push(l0);
        r.push(l1);
        r.push(l2);
        r
    }
}

impl Clone for Dataset {
    fn clone(&self) -> (r: Self)
        ensures
            r@ == self@,
    {
        Dataset {
            filename: self.filename.clone(),
            description: self.description.clone(),
            url: self.url.clone(),
        }
    }
}

/// Exact-match lookup in a sequence of named entries: the value of the
/// first pair whose name is `n`, scanned front to back.
pub open spec fn lookup_entries(
    es: Seq<(Seq<char>, DatasetView)>,
    n: Seq<char>,
) -> Option<DatasetView>
    decreases es.len(),
{
    if es.len() == 0 {
        None
    } else if es.first().0 == n {
        Some(es.first().1)
    } else {
        lookup_entries(es.drop_first(), n)
    }
}

/// A lookup succeeds exactly when some entry carries the requested name.
pub proof fn lemma_lookup_entries_contains(es: Seq<(Seq<char>, DatasetView)>, n: Seq<char>)
    ensures
        (lookup_entries(es, n) is Some) <==> (exists|i: int|
            0 <= i < es.len() && es[i].0 == n),
    decreases es.len(),
{
    if es.len() == 0 {
    } else if es.first().0 == n {
        assert(es[0].0 == n);
    } else {
        lemma_lookup_entries_contains(es.drop_first(), n);
        if lookup_entries(es, n) is Some {
            let i = choose|i: int| 0 <= i < es.drop_first().len() && es.drop_first()[i].0 == n;
            assert(es[i + 1].0 == n);
        } else {
            if exists|i: int| 0 <= i < es.len() && es[i].0 == n {
                let i = choose|i: int| 0 <= i < es.len() && es[i].0 == n;
                assert(i != 0);
                assert(es.drop_first()[i - 1].0 == n);
            }
        }
    }
}

/// A roverfile: a collection of named dataset descriptors together with an
/// optional author and the path the file was read from.
pub struct Roverfile {
    path: String,
    author: Option<String>,
    datasets: Vec<(String, Dataset)>,
}

impl Roverfile {
    /// The named entries, in stored order, as mathematical values.
    pub closed spec fn entries(&self) -> Seq<(Seq<char>, DatasetView)> {
        self.datasets@.map_values(|p: (String, Dataset)| (p.0@, p.1@))
    }

    /// The dataset names, in stored order.
    pub open spec fn names(&self) -> Seq<Seq<char>> {
        Seq::new(self.entries().len(), |i: int| self.entries()[i].0)
    }

    /// Whether some dataset is stored under the name `n`.
    pub open spec fn contains_name(&self, n: Seq<char>) -> bool {
        exists|i: int| 0 <= i < self.names().len() && self.names()[i] == n
    }

    /// The descriptor stored under the name `n`, if any.
    pub open spec fn spec_get(&self, n: Seq<char>) -> Option<DatasetView> {
        lookup_entries(self.entries(), n)
    }

    /// Well-formed roverfiles store every dataset under a distinct name.
    pub open spec fn wf(&self) -> bool {
        forall|i: int, j: int|
            0 <= i < j < self.names().len() ==> self.names()[i] != self.names()[j]
    }

    /// The author named by the roverfile, if any.
    pub closed spec fn spec_author(&self) -> Option<Seq<char>> {
        self.author.deep_view()
    }

    /// The path the roverfile was read from.
    pub closed spec fn spec_path(&self) -> Seq<char> {
        self.path@
    }

    /// Build a roverfile from its parts. The names must be pairwise
    /// distinct; a repeated name is rejected as a parse error, mirroring
    /// the rejection of a repeated table in the on-disk format.
    pub fn new(path: String, author: Option<String>, datasets: Vec<(String, Dataset)>) -> (r:
        Result<Roverfile, RoverError>)
        ensures
            match r {
                Ok(rf) => {
                    &&& rf.wf()
                    &&& rf.entries() == datasets@.map_values(
                        |p: (String, Dataset)| (p.0@, p.1@),
                    )
                    &&& rf.spec_author() == author.deep_view()
                    &&& rf.spec_path() == path@
                },
                Err(e) => {
                    &&& e == RoverError::ParseError
                    &&& exists|i: int, j: int|
                        0 <= i < j < datasets@.len() && datasets@[i].0@ == datasets@[j].0@
                },
            },
            (r is Ok) <==> (forall|i: int, j: int|
                0 <= i < j < datasets@.len() ==> datasets@[i].0@ != datasets@[j].0@),
    {
        let n = datasets.len();
        let mut i: usize = 0;
        while i < n
            invariant
                i <= n,
                n == datasets@.len(),
                forall|a: int, b: int|
                    0 <= a < b < i ==> datasets@[a].0@ != datasets@[b].0@,
            decreases n - i,
        {
            let mut j: usize = 0;
            while j < i
                invariant
                    j <= i < n,
                    n == datasets@.len(),
                    forall|a: int, b: int|
                        0 <= a < b < i ==> datasets@[a].0@ != datasets@[b].0@,
                    forall|a: int| 0 <= a < j ==> datasets@[a].0@ != datasets@[i as int].0@,
                decreases i - j,
            {
                if datasets[j].0 == datasets[i].0 {
                    return Err(RoverError::ParseError);
                }
                j = j + 1;
            }
            i = i + 1;
        }
        let rf = Roverfile { path, author, datasets };
        Ok(rf)
    }

    /// Lookup succeeds exactly for the names the roverfile stores.
    pub proof fn lemma_get_contains(&self, n: Seq<char>)
        ensures
            (self.spec_get(n) is Some) <==> self.contains_name(n),
    {
        lemma_lookup_entries_contains(self.entries(), n);
        if self.spec_get(n) is Some {
            let i = choose|i: int| 0 <= i < self.entries().len() && self.entries()[i].0 == n;
            assert(self.names()[i] == n);
        }
        if self.contains_name(n) {
            let i = choose|i: int| 0 <= i < self.names().len() && self.names()[i] == n;
            assert(self.entries()[i].0 == n);
        }
    }

    /// Return the dataset stored under the name `nm`, or nothing when no
    /// dataset carries that name.
    pub fn get_dataset(&self, nm: &str) -> (r: Option<&Dataset>)
        ensures
            match r {
                Some(d) => self.spec_get(nm@) == Some(d@),
                None => self.spec_get(nm@) is None,
            },
    {
        let key: String = nm.to_owned();
        let n = self.datasets.len();
        let mut i: usize = 0;
        proof {
            assert(self.entries().skip(0) =~= self.entries());
        }
        while i < n
            invariant
                i <= n,
                n == self.entries().len(),
                key@ == nm@,
                lookup_entries(self.entries().skip(i as int), nm@) == self.spec_get(nm@),
            decreases n - i,
        {
            let p = &self.datasets[i];
            proof {
                assert(self.entries().skip(i as int).first() == self.entries()[i as int]);
                assert(self.entries().skip(i as int).drop_first() =~= self.entries().skip(
                    i as int + 1,
                ));
            }
            if p.0 == key {
                return Some(&p.1);
            }
            i = i + 1;
        }
        proof {
            assert(self.entries().skip(n as int).len() == 0);
        }
        None
    }

    /// The author named by the roverfile, if any.
    pub fn author(&self) -> (r: &Option<String>)
        ensures
            r.deep_view() == self.spec_author(),
    {
        &self.author
    }

    /// The path the roverfile was read from.
    pub fn path(&self) -> (r: &str)
        ensures
            r@ == self.spec_path(),
    {
        self.path.as_str()
    }

    /// Return every dataset name, in stored order.
    pub fn dataset_names(&self) -> (r: Vec<&str>)
        ensures
            r@.len() == self.names().len(),
            forall|i: int| 0 <= i < r@.len() ==> r@[i]@ == self.names()[i],
    {
        let mut ret: Vec<&str> = Vec::new();
        let n = self.datasets.len();
        let mut i: usize = 0;
        while i < n
            invariant
                i <= n,
                n == self.entries().len(),
                ret@.len() == i,
                forall|k: int| 0 <= k < i ==> ret@[k]@ == self.names()[k],
            decreases n - i,
        {
            ret.push(self.datasets[i].0.as_str());
            i = i + 1;
        }
        ret
    }

    /// Return every dataset name, in alphabetical order. The result holds
    /// the same names as the roverfile, however the entries were ordered
    /// when it was built.
    pub fn sorted_names(&self) -> (r: Vec<String>)
        ensures
            names_sorted(r.deep_view()),
            r.deep_view().to_multiset() == self.names().to_multiset(),
    {
        let n = self.datasets.len();
        let mut sorted: Vec<String> = Vec::new();
        let mut i: usize = 0;
        proof {
            assert(sorted.deep_view() =~= self.names().take(0));
        }
        while i < n
            invariant
                i <= n,
                n == self.names().len(),
                names_sorted(sorted.deep_view()),
                sorted.deep_view().to_multiset() == self.names().take(i as int).to_multiset(),
            decreases n - i,
        {
            let x = self.datasets[i].0.clone();
            let ghost pre = sorted.deep_view();
            let mut p: usize = 0;
            while p < sorted.len() && str_lt(sorted[p].as_str(), x.as_str())
                invariant
                    p <= sorted@.len(),
                    forall|k: int| 0 <= k < p ==> name_lt(sorted.deep_view()[k], x@),
                decreases sorted@.len() - p,
            {
                p = p + 1;
            }
            proof {
                lemma_sorted_insert(pre, p as int, x@);
                assert(self.names().take(i as int + 1) =~= self.names().take(i as int).push(
                    self.names()[i as int],
                ));
            }
            sorted.insert(p, x);
            proof {
                assert(sorted.deep_view() =~= pre.insert(p as int, self.names()[i as int]));
            }
            i = i + 1;
        }
        proof {
            assert(self.names().take(n as int) =~= self.names());
        }
        sorted
    }

    /// Render the listing: one line per dataset, in alphabetical order of
    /// the names, each name padded to the longest name and followed by a
    /// tab and the dataset's description.
    pub fn list_lines(&self) -> (r: Vec<String>)
        ensures
            r@.len() == self.names().len(),
            exists|sn: Seq<Seq<char>>|
                {
                    &&& names_sorted(sn)
                    &&& sn.to_multiset() == self.names().to_multiset()
                    &&& r@.len() == sn.len()
                    &&& forall|k: int|
                        0 <= k < sn.len() ==> r@[k]@ == listing_line(
                            sn[k],
                            self.spec_get(sn[k]).unwrap().description,
                            max_name_len(sn),
                        )
                },
    {
        let sorted = self.sorted_names();
        let width = max_name_width(&sorted);
        let mut out: Vec<String> = Vec::new();
        let n = sorted.len();
        let mut i: usize = 0;
        while i < n
            invariant
                i <= n,
                n == sorted@.len(),
                names_sorted(sorted.deep_view()),
                sorted.deep_view().to_multiset() == self.names().to_multiset(),
                width as int == max_name_len(sorted.deep_view()),
                out@.len() == i,
                forall|k: int|
                    0 <= k < i ==> out@[k]@ == listing_line(
                        sorted.deep_view()[k],
                        self.spec_get(sorted.deep_view()[k]).unwrap().description,
                        max_name_len(sorted.deep_view()),
                    ),
            decreases n - i,
        {
            let ghost nm = sorted.deep_view()[i as int];
            proof {
                assert(sorted.deep_view().contains(nm));
                assert(sorted.deep_view().to_multiset().count(nm) > 0);
                assert(self.names().to_multiset().count(nm) > 0);
                assert(self.names().contains(nm));
                let t = choose|t: int| 0 <= t < self.names().len() && self.names()[t] == nm;
                assert(self.contains_name(nm));
                self.lemma_get_contains(nm);
            }
            let d_opt = self.get_dataset(sorted[i].as_str());
            let d = d_opt.unwrap();
            out.push(format_entry(sorted[i].as_str(), d.description.as_str(), width));
            i = i + 1;
        }
        proof {
            assert(sorted.deep_view().to_multiset().len() == self.names().to_multiset().len());
        }
        out
    }
}

/// A run of `n` spaces (none when `n` is not positive).
pub open spec fn spaces(n: int) -> Seq<char>
    decreases n,
{
    if n <= 0 {
        Seq::<char>::empty()
    } else {
        spaces(n - 1).push(' ')
    }
}

/// The length of the longest name in `s`.
pub open spec fn max_name_len(s: Seq<Seq<char>>) -> int
    decreases s.len(),
{
    if s.len() == 0 {
        0
    } else if s.last().len() > max_name_len(s.drop_last()) {
        s.last().len() as int
    } else {
        max_name_len(s.drop_last())
    }
}

/// One line of the listing: the name, padded with spaces to `width`,
/// then a tab and the description.
pub open spec fn listing_line(name: Seq<char>, desc: Seq<char>, width: int) -> Seq<char> {
    name + spaces(width - name.len()) + "\t"@ + desc
}

/// The length of the longest of the given names.
pub fn max_name_width(names: &Vec<String>) -> (r: usize)
    ensures
        r as int == max_name_len(names.deep_view()),
{
    let mut r: usize = 0;
    let mut i: usize = 0;
    proof {
        assert(names.deep_view().take(0) =~= Seq::<Seq<char>>::empty());
    }
    while i < names.len()
        invariant
            i <= names@.len(),
            r as int == max_name_len(names.deep_view().take(i as int)),
        decreases names@.len() - i,
    {
        proof {
            assert(names.deep_view().take(i as int + 1).drop_last() =~= names.deep_view().take(
                i as int,
            ));
            assert(names.deep_view().take(i as int + 1).last() == names[i as int]@);
        }
        let l = names[i].as_str().unicode_len();
        if l > r {
            r = l;
        }
        i = i + 1;
    }
    proof {
        assert(names.deep_view().take(names@.len() as int) =~= names.deep_view());
    }
    r
}

/// Render one listing line for a name and its description, padding the
/// name with spaces to `width` columns.
pub fn format_entry(name: &str, description: &str, width: usize) -> (r: String)
    ensures
        r@ == listing_line(name@, description@, width as int),
{
    let mut r = name.to_owned();
    let mut pad: usize = name.unicode_len();
    proof {
        assert(r@ =~= name@ + spaces(pad as int - name@.len() as int));
    }
    while pad < width
        invariant
            pad >= name@.len(),
            pad <= width || pad == name@.len(),
            r@ == name@ + spaces(pad as int - name@.len() as int),
        decreases width - pad,
    {
        r.append(" ");
        proof {
            reveal_strlit(" ");
            assert(r@ =~= name@ + spaces(pad as int + 1 - name@.len() as int));
        }
        pad = pad + 1;
    }
    r.append("\t");
    r.append(description);
    proof {
        assert(r@ =~= listing_line(name@, description@, width as int));
    }
    r
}

} // verus!
