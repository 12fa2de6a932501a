use vstd::prelude::*;

verus! {

/// A part of a normalized path: non-empty, not `.` or `..`, and free of `/`.
pub open spec fn valid_part(s: Seq<char>) -> bool {
    &&& s.len() > 0
    &&& s != seq!['.']
    &&& s != seq!['.', '.']
    &&& forall|i: int| 0 <= i < s.len() ==> s[i] != '/'
}

/// Every part of `p` is valid: `p` names an absolute, normalized path.
pub open spec fn normalized(p: Seq<Seq<char>>) -> bool {
    forall|i: int| 0 <= i < p.len() ==> valid_part(#[trigger] p[i])
}

/// The text `/a/b/c` of the path whose parts are `a`, `b`, `c`; the root is `/`.
pub open spec fn path_text(p: Seq<Seq<char>>) -> Seq<char> {
    if p.len() == 0 {
        seq!['/']
    } else {
        joined_text(p)
    }
}

/// Each part preceded by a `/`.
pub open spec fn joined_text(p: Seq<Seq<char>>) -> Seq<char>
    decreases p.len(),
{
    if p.len() == 0 {
        Seq::empty()
    } else {
        joined_text(p.drop_last()) + seq!['/'] + p.last()
    }
}

/// Checks one part against `valid_part`.
pub fn is_valid_part(s: &str) -> (r: bool)
    ensures
        r == valid_part(s@),
{
    let n = s.unicode_len();
    if n == 0 {
        return false;
    }
    let mut i: usize = 0;
    let mut dots: usize = 0;
    while i < n
        invariant
            n == s@.len(),
            i <= n,
            dots <= i,
            forall|j: int| 0 <= j < i ==> s@[j] != '/',
            dots == i <==> (forall|j: int| 0 <= j < i ==> s@[j] == '.'),
        decreases n - i,
    {
        let c = s.get_char(i);
        if c == '/' {
            return false;
        }
        if c == '.' && dots == i {
            dots = dots + 1;
        }
        i = i + 1;
    }
    if dots == n && n <= 2 {
        proof {
            if n == 1 {
                assert(s@ =~= seq!['.']);
            } else {
                assert(s@ =~= seq!['.', '.']);
            }
        }
        false
    } else {
        proof {
            if s@ == seq!['.'] {
                assert(s@[0] == '.');
            }
            if s@ == seq!['.', '.'] {
                assert(s@[0] == '.' && s@[1] == '.');
            }
        }
        true
    }
}

/// An absolute, normalized filesystem path, held as its parts from the root down.
#[derive(Debug)]
pub struct AbsPath {
    parts: Vec<String>,
}

impl View for AbsPath {
    type V = Seq<Seq<char>>;

    closed spec fn view(&self) -> Seq<Seq<char>> {
        self.parts@.map_values(|s: String| s@)
    }
}

impl AbsPath {
    /// Every path is absolute and normalized.
    #[verifier::type_invariant]
    pub closed spec fn parts_valid(&self) -> bool {
        normalized(self@)
    }

    /// What every path satisfies, as the type's invariant holds it.
    pub open spec fn wf(&self) -> bool {
        normalized(self@)
    }

    /// The root directory `/`.
    pub fn root() -> (r: AbsPath)
        ensures
            r@ == Seq::<Seq<char>>::empty(),
            r.wf(),
    {
        let parts: Vec<String> = Vec::new();
        assert(parts@.map_values(|s: String| s@) =~= Seq::<Seq<char>>::empty());
        AbsPath { parts }
    }

    /// The path with the given parts, if each of them is a valid part.
    pub fn from_parts(parts: Vec<String>) -> (r: Option<AbsPath>)
        ensures
            r.is_some() == normalized(parts@.map_values(|s: String| s@)),
            r.is_some() ==> r.unwrap()@ == parts@.map_values(|s: String| s@),
    {
        let mut i: usize = 0;
        while i < parts.len()
            invariant
                i <= parts.len(),
                forall|j: int| 0 <= j < i ==> valid_part(#[trigger] parts@[j]@),
            decreases parts.len() - i,
        {
            if !is_valid_part(parts[i].as_str()) {
                assert(!valid_part(parts@.map_values(|s: String| s@)[i as int]));
                return None;
            }
            i = i + 1;
        }
        assert(normalized(parts@.map_values(|s: String| s@)));
        Some(AbsPath { parts })
    }

    /// A copy of this path.
    pub fn clone_path(&self) -> (r: AbsPath)
        ensures
            r@ == self@,
    {
        proof {
            use_type_invariant(self);
        }
        let parts = self.parts.clone();
        assert(parts@.map_values(|s: String| s@) =~= self@);
        AbsPath { parts }
    }

    /// The number of parts below the root.
    pub fn depth(&self) -> (r: usize)
        ensures
            r == self@.len(),
    {
        self.parts.len()
    }

    /// The part at `i`, counted from the root.
    pub fn part(&self, i: usize) -> (r: String)
        requires
            i < self@.len(),
        ensures
            r@ == self@[i as int],
    {
        self.parts[i].clone()
    }

    /// The path extended by one part.
    pub fn child(&self, name: &str) -> (r: AbsPath)
        requires
            valid_part(name@),
        ensures
            r@ == self@.push(name@),
            r.wf(),
    {
        proof {
            use_type_invariant(self);
        }
        let mut parts = self.parts.clone();
        parts.push(String::from_str(name));
        assert(parts@.map_values(|s: String| s@) =~= self@.push(name@));
        let r = AbsPath { parts };
        r
    }

    /// The directory that holds this path; the root has none.
    pub fn parent(&self) -> (r: Option<AbsPath>)
        ensures
            r.is_none() == (self@.len() == 0),
            r.is_some() ==> r.unwrap()@ == self@.drop_last() && r.unwrap().wf(),
    {
        proof {
            use_type_invariant(self);
        }
        if self.parts.len() == 0 {
            None
        } else {
            let mut parts = self.parts.clone();
            parts.pop();
            assert(parts@.map_values(|s: String| s@) =~= self@.drop_last());
            Some(AbsPath { parts })
        }
    }

    /// Whether the last part of this path is `name`.
    pub fn name_is(&self, name: &str) -> (r: bool)
        ensures
            r == (self@.len() > 0 && self@.last() == name@),
    {
        let n = self.parts.len();
        if n == 0 {
            false
        } else {
            let wanted = String::from_str(name);
            self.parts[n - 1] == wanted
        }
    }

    /// The path written out, parts separated by `/`.
    pub fn to_text(&self) -> (r: String)
        ensures
            r@ == path_text(self@),
    {
        if self.parts.len() == 0 {
            proof {
                reveal_strlit("/");
            }
            return String::from_str("/");
        }
        let mut out = String::new();
        let mut i: usize = 0;
        while i < self.parts.len()
            invariant
                i <= self@.len(),
                out@ == joined_text(self@.take(i as int)),
            decreases self.parts.len() - i,
        {
            proof {
                reveal_strlit("/");
                assert(self@.take(i + 1).drop_last() =~= self@.take(i as int));
            }
            out.append("/");
            out.append(self.parts[i].as_str());
            i = i + 1;
        }
        assert(self@.take(self@.len() as int) =~= self@);
        out
    }
}

} // verus!
