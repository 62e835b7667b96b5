use vstd::prelude::*;

verus! {

// Names that the directory convention fixes, as byte strings:
// ".out" marks an encoded file, ".qif" a reference file, "qifs" the
// directory of references, and "encoded"/"qpack-05" the two-level
// results layout.

/// The marker substring of an encoded file's name: ".out".
pub open spec fn out_marker() -> Seq<u8> {
    seq![46u8, 111u8, 117u8, 116u8]
}

/// The reference file suffix: ".qif".
pub open spec fn qif_suffix() -> Seq<u8> {
    seq![46u8, 113u8, 105u8, 102u8]
}

/// The name of a directory of reference files: "qifs".
pub open spec fn qifs_name() -> Seq<u8> {
    seq![113u8, 105u8, 102u8, 115u8]
}

/// The version-tagged folder name of the results layout: "qpack-05".
pub open spec fn version_name() -> Seq<u8> {
    seq![113u8, 112u8, 97u8, 99u8, 107u8, 45u8, 48u8, 53u8]
}

/// The top-level results folder name: "encoded".
pub open spec fn encoded_name() -> Seq<u8> {
    seq![101u8, 110u8, 99u8, 111u8, 100u8, 101u8, 100u8]
}

/// Builds the ".out" marker as a byte vector.
pub fn out_marker_vec() -> (r: Vec<u8>)
    ensures
        r@ == out_marker(),
{
    let mut r: Vec<u8> = Vec::new();
    r.push(46u8);
    r.push(111u8);
    r.push(117u8);
    r.push(116u8);
    proof {
        assert(r@ =~= out_marker());
    }
    r
}

/// Builds the ".qif" suffix as a byte vector.
pub fn qif_suffix_vec() -> (r: Vec<u8>)
    ensures
        r@ == qif_suffix(),
{
    let mut r: Vec<u8> = Vec::new();
    r.push(46u8);
    r.push(113u8);
    r.push(105u8);
    r.push(102u8);
    proof {
        assert(r@ =~= qif_suffix());
    }
    r
}

/// Builds the "qifs" directory name as a byte vector.
pub fn qifs_name_vec() -> (r: Vec<u8>)
    ensures
        r@ == qifs_name(),
{
    let mut r: Vec<u8> = Vec::new();
    r.push(113u8);
    r.push(105u8);
    r.push(102u8);
    r.push(115u8);
    proof {
        assert(r@ =~= qifs_name());
    }
    r
}

/// Builds the "qpack-05" folder name as a byte vector.
pub fn version_name_vec() -> (r: Vec<u8>)
    ensures
        r@ == version_name(),
{
    let mut r: Vec<u8> = Vec::new();
    r.push(113u8);
    r.push(112u8);
    r.push(97u8);
    r.push(99u8);
    r.push(107u8);
    r.push(45u8);
    r.push(48u8);
    r.push(53u8);
    proof {
        assert(r@ =~= version_name());
    }
    r
}

/// Builds the "encoded" folder name as a byte vector.
pub fn encoded_name_vec() -> (r: Vec<u8>)
    ensures
        r@ == encoded_name(),
{
    let mut r: Vec<u8> = Vec::new();
    r.push(101u8);
    r.push(110u8);
    r.push(99u8);
    r.push(111u8);
    r.push(100u8);
    r.push(101u8);
    r.push(100u8);
    proof {
        assert(r@ =~= encoded_name());
    }
    r
}

/// A filesystem path, modelled as its component names from the root
/// down, each name as the bytes the system reports for it.
pub struct FsPath {
    pub parts: Vec<Vec<u8>>,
}

impl View for FsPath {
    type V = Seq<Seq<u8>>;

    open spec fn view(&self) -> Seq<Seq<u8>> {
        self.parts@.map_values(|p: Vec<u8>| p@)
    }
}

/// True when `pat` occurs as a contiguous substring of `s`.
pub open spec fn has_sub(s: Seq<u8>, pat: Seq<u8>) -> bool {
    exists|i: int| 0 <= i && i + pat.len() <= s.len() && #[trigger] s.subrange(i, i + pat.len())
        == pat
}

/// True when `s` ends with `suffix`.
pub open spec fn ends_with(s: Seq<u8>, suffix: Seq<u8>) -> bool {
    s.len() >= suffix.len() && s.skip(s.len() - suffix.len()) == suffix
}

/// The index of the first 46u8 in `s`, or `s.len()` if there is none.
pub open spec fn first_dot(s: Seq<u8>) -> int
    decreases s.len(),
{
    if s.len() == 0 {
        0
    } else if s[0] == 46u8 {
        0
    } else {
        1 + first_dot(s.drop_first())
    }
}

/// A name's canonical stem: its bytes before the first 46u8.
pub open spec fn stem_of(s: Seq<u8>) -> Seq<u8> {
    s.take(first_dot(s))
}

pub proof fn lemma_first_dot(s: Seq<u8>)
    ensures
        0 <= first_dot(s) <= s.len(),
        forall|j: int| 0 <= j < first_dot(s) ==> s[j] != 46u8,
        first_dot(s) < s.len() ==> s[first_dot(s)] == 46u8,
    decreases s.len(),
{
    if s.len() == 0 {
    } else if s[0] == 46u8 {
    } else {
        lemma_first_dot(s.drop_first());
        assert forall|j: int| 0 <= j < first_dot(s) implies s[j] != 46u8 by {
            if j > 0 {
                assert(s[j] == s.drop_first()[j - 1]);
            }
        }
        if first_dot(s) < s.len() {
            assert(s[first_dot(s)] == s.drop_first()[first_dot(s) - 1]);
        }
    }
}

/// Copies a byte string.
pub fn copy_bytes(v: &Vec<u8>) -> (r: Vec<u8>)
    ensures
        r@ == v@,
{
    let mut r: Vec<u8> = Vec::new();
    let mut i: usize = 0;
    while i < v.len()
        invariant
            i <= v@.len(),
            r@ == v@.take(i as int),
        decreases v@.len() - i,
    {
        r.push(v[i]);
        proof {
            assert(v@.take(i as int).push(v@[i as int]) =~= v@.take(i + 1));
        }
        i = i + 1;
    }
    proof {
        assert(v@.take(v@.len() as int) =~= v@);
    }
    r
}

/// True exactly when two byte strings are equal.
pub fn bytes_eq(a: &Vec<u8>, b: &Vec<u8>) -> (r: bool)
    ensures
        r <==> a@ == b@,
{
    if a.len() != b.len() {
        return false;
    }
    let mut i: usize = 0;
    while i < a.len()
        invariant
            a@.len() == b@.len(),
            i <= a@.len(),
            forall|j: int| 0 <= j < i ==> a@[j] == b@[j],
        decreases a@.len() - i,
    {
        if a[i] != b[i] {
            return false;
        }
        i = i + 1;
    }
    proof {
        assert(a@ =~= b@);
    }
    true
}

impl FsPath {
    /// The path's last component, if it has one.
    pub fn file_name(&self) -> (r: Option<&Vec<u8>>)
        ensures
            match r {
                Some(n) => self@.len() > 0 && n@ == self@.last(),
                None => self@.len() == 0,
            },
    {
        if self.parts.len() == 0 {
            None
        } else {
            Some(&self.parts[self.parts.len() - 1])
        }
    }

    /// A copy of the path.
    pub fn duplicate(&self) -> (r: FsPath)
        ensures
            r@ == self@,
    {
        let mut parts: Vec<Vec<u8>> = Vec::new();
        let mut i: usize = 0;
        while i < self.parts.len()
            invariant
                i <= self.parts@.len(),
                parts@.map_values(|p: Vec<u8>| p@) == self@.take(i as int),
            decreases self.parts@.len() - i,
        {
            let ghost before = parts@.map_values(|p: Vec<u8>| p@);
            parts.push(copy_bytes(&self.parts[i]));
            proof {
                assert(parts@.map_values(|p: Vec<u8>| p@) =~= before.push(self@[i as int]));
                assert(before.push(self@[i as int]) =~= self@.take(i + 1));
            }
            i = i + 1;
        }
        proof {
            assert(self@.take(self.parts@.len() as int) =~= self@);
        }
        FsPath { parts }
    }

    /// A copy of the path's first `n` components.
    pub fn prefix(&self, n: usize) -> (r: FsPath)
        requires
            n <= self@.len(),
        ensures
            r@ == self@.take(n as int),
    {
        let mut parts: Vec<Vec<u8>> = Vec::new();
        let mut i: usize = 0;
        while i < n
            invariant
                n <= self.parts@.len(),
                i <= n,
                parts@.map_values(|p: Vec<u8>| p@) == self@.take(i as int),
            decreases n - i,
        {
            let ghost before = parts@.map_values(|p: Vec<u8>| p@);
            parts.push(copy_bytes(&self.parts[i]));
            proof {
                assert(parts@.map_values(|p: Vec<u8>| p@) =~= before.push(self@[i as int]));
                assert(before.push(self@[i as int]) =~= self@.take(i + 1));
            }
            i = i + 1;
        }
        FsPath { parts }
    }

    /// Appends one component to the path.
    pub fn push_part(&mut self, name: Vec<u8>)
        ensures
            final(self)@ == old(self)@.push(name@),
    {
        let ghost before = self@;
        self.parts.push(name);
        proof {
            assert(self@ =~= before.push(self.parts@.last()@));
        }
    }

    /// True exactly when two paths have the same components.
    pub fn path_eq(&self, other: &FsPath) -> (r: bool)
        ensures
            r <==> self@ == other@,
    {
        if self.parts.len() != other.parts.len() {
            proof {
                assert(self@.len() == self.parts@.len());
                assert(other@.len() == other.parts@.len());
            }
            return false;
        }
        let mut i: usize = 0;
        while i < self.parts.len()
            invariant
                self.parts@.len() == other.parts@.len(),
                i <= self.parts@.len(),
                forall|j: int| 0 <= j < i ==> self@[j] == other@[j],
            decreases self.parts@.len() - i,
        {
            let same = bytes_eq(&self.parts[i], &other.parts[i]);
            proof {
                assert(self@[i as int] == self.parts@[i as int]@);
                assert(other@[i as int] == other.parts@[i as int]@);
            }
            if !same {
                return false;
            }
            i = i + 1;
        }
        proof {
            assert(self@ =~= other@);
        }
        true
    }
}

/// True exactly when `pat` occurs as a contiguous substring of `hay`.
pub fn contains_bytes(hay: &Vec<u8>, pat: &Vec<u8>) -> (r: bool)
    ensures
        r <==> has_sub(hay@, pat@),
{
    if pat.len() > hay.len() {
        return false;
    }
    if pat.len() == 0 {
        proof {
            assert(hay@.subrange(0, 0 + pat@.len() as int) =~= pat@);
        }
        return true;
    }
    let hn: usize = hay.len();
    let pn: usize = pat.len();
    let mut i: usize = 0;
    let last: usize = hn - pn;
    while i <= last
        invariant
            hn == hay@.len(),
            pn == pat@.len(),
            0 < pn <= hn,
            last == hn - pn,
            i <= last + 1,
            forall|k: int| 0 <= k < i ==> #[trigger] hay@.subrange(k, k + pat@.len()) != pat@,
        decreases last + 1 - i,
    {
        let mut j: usize = 0;
        let mut matches_here: bool = true;
        while j < pn
            invariant
                hn == hay@.len(),
                pn == pat@.len(),
                i + pn <= hn,
                j <= pn,
                matches_here <==> (forall|m: int| 0 <= m < j ==> hay@[i + m] == pat@[m]),
            decreases pat@.len() - j,
        {
            if hay[i + j] != pat[j] {
                matches_here = false;
                proof {
                    assert(hay@[i + j] != pat@[j as int]);
                }
                j = pn;
            } else {
                j = j + 1;
            }
        }
        if matches_here {
            proof {
                assert(hay@.subrange(i as int, i + pat@.len()) =~= pat@);
            }
            return true;
        }
        proof {
            assert forall|k: int| 0 <= k < i + 1 implies #[trigger] hay@.subrange(
                k,
                k + pat@.len(),
            ) != pat@ by {
                if k == i {
                    let m = choose|m: int| 0 <= m < pat@.len() && hay@[i + m] != pat@[m];
                    assert(hay@.subrange(i as int, i + pat@.len())[m] == hay@[i + m]);
                }
            }
        }
        i = i + 1;
    }
    false
}

/// True exactly when `s` ends with `suffix`.
pub fn ends_with_bytes(s: &Vec<u8>, suffix: &Vec<u8>) -> (r: bool)
    ensures
        r <==> ends_with(s@, suffix@),
{
    if suffix.len() > s.len() {
        return false;
    }
    let sn: usize = s.len();
    let fn_len: usize = suffix.len();
    let start: usize = sn - fn_len;
    let mut i: usize = 0;
    while i < fn_len
        invariant
            sn == s@.len(),
            fn_len == suffix@.len(),
            fn_len <= sn,
            start == sn - fn_len,
            i <= fn_len,
            forall|j: int| 0 <= j < i ==> s@[start + j] == suffix@[j],
        decreases suffix@.len() - i,
    {
        if s[start + i] != suffix[i] {
            proof {
                assert(s@.skip(start as int)[i as int] == s@[start + i]);
            }
            return false;
        }
        i = i + 1;
    }
    proof {
        assert(s@.skip(start as int) =~= suffix@);
    }
    true
}

/// The canonical stem of a name: a copy of its bytes before the first
/// 46u8.
pub fn stem_bytes(name: &Vec<u8>) -> (r: Vec<u8>)
    ensures
        r@ == stem_of(name@),
{
    proof {
        lemma_first_dot(name@);
    }
    let mut end: usize = 0;
    let n = name.len();
    while end < n && name[end] != 46u8
        invariant
            n == name@.len(),
            end <= n,
            forall|j: int| 0 <= j < end ==> name@[j] != 46u8,
        decreases n - end,
    {
        end = end + 1;
    }
    proof {
        assert(end as int == first_dot(name@)) by {
            lemma_first_dot(name@);
            if (end as int) < first_dot(name@) {
                assert(name@[end as int] == 46u8);
            }
            if first_dot(name@) < end as int {
                assert(name@[first_dot(name@)] != 46u8);
            }
        }
    }
    let mut r: Vec<u8> = Vec::new();
    let mut i: usize = 0;
    while i < end
        invariant
            end <= name@.len(),
            i <= end,
            r@ == name@.take(end as int).take(i as int),
        decreases end - i,
    {
        r.push(name[i]);
        proof {
            assert(name@.take(end as int).take(i as int).push(name@[i as int]) =~= name@.take(
                end as int,
            ).take(i + 1));
        }
        i = i + 1;
    }
    proof {
        assert(name@.take(end as int).take(end as int) =~= name@.take(end as int));
    }
    r
}

} // verus!
