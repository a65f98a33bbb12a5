//! What a sandbox permits to the containers that run in it.

use crate::id_map::IdMap;
use crate::text::{
    chars_of, first_at, parse_unsigned, same_text, split, split_text, texts, unsigned_reading,
};
use vstd::prelude::*;
use vstd::string::*;

verus! {

/// The numbers from `start` to `end`, both included.
#[derive(Clone, Copy, Debug, PartialEq, Eq, Structural)]
pub struct Range {
    pub start: u32,
    pub end: u32,
}

/// What a text denotes as a range: one number, which is a range of one,
/// or two numbers with a `-` between them.
pub open spec fn range_reading(text: Seq<char>) -> Option<Range> {
    match unsigned_reading(text, u32::MAX as nat) {
        Some(n) => Some(Range { start: n as u32, end: n as u32 }),
        None => {
            let dash = first_at(text, '-', 0);
            if dash < text.len() {
                match (
                    unsigned_reading(text.subrange(0, dash), u32::MAX as nat),
                    unsigned_reading(text.subrange(dash + 1, text.len() as int), u32::MAX as nat),
                ) {
                    (Some(a), Some(b)) => Some(Range { start: a as u32, end: b as u32 }),
                    _ => None,
                }
            } else {
                None
            }
        },
    }
}

/// Whether one of `ranges` holds `value`.
pub open spec fn within(ranges: Seq<Range>, value: u32) -> bool {
    exists|k: int| 0 <= k < ranges.len() && (#[trigger] ranges[k]).start <= value <= ranges[k].end
}

impl Range {
    /// The range from `start` to `end`.
    pub fn new(start: u32, end: u32) -> (r: Range)
        ensures
            r == (Range { start, end }),
    {
        Range { start, end }
    }

    /// How many numbers the range holds.
    pub fn len(&self) -> (n: u32)
        requires
            self.start <= self.end,
            self.end - self.start < u32::MAX,
        ensures
            n == self.end - self.start + 1,
    {
        self.end - self.start + 1
    }

    /// The range without its first `val` numbers.
    pub fn shift(&self, val: u32) -> (r: Range)
        requires
            self.start <= self.end,
            val <= self.end - self.start + 1,
            self.start + val <= u32::MAX,
        ensures
            r == (Range { start: (self.start + val) as u32, end: self.end }),
    {
        Range::new(self.start + val, self.end)
    }

    /// Reads a range as the configuration writes it.
    pub fn parse(text: &str) -> (r: Option<Range>)
        ensures
            r == range_reading(text@),
    {
        let v = chars_of(text);
        let n: usize = v.len();
        assert(v@.subrange(0, n as int) == text@);
        match parse_unsigned(&v, 0, n, 0xffff_ffff) {
            Some(x) => Some(Range::new(x as u32, x as u32)),
            None => {
                let mut dash: usize = 0;
                while dash < n && v[dash] != '-'
                    invariant
                        v@ == text@,
                        dash <= n == v.len(),
                        first_at(text@, '-', 0) == first_at(text@, '-', dash as int),
                    decreases n - dash,
                {
                    dash += 1;
                }
                if dash >= n {
                    return None;
                }
                match (parse_unsigned(&v, 0, dash, 0xffff_ffff), parse_unsigned(
                    &v,
                    dash + 1,
                    n,
                    0xffff_ffff,
                )) {
                    (Some(a), Some(b)) => Some(Range::new(a as u32, b as u32)),
                    _ => None,
                }
            },
        }
    }
}

/// Whether one of `ranges` holds `value`.
pub fn in_range(ranges: &Vec<Range>, value: u32) -> (b: bool)
    ensures
        b == within(ranges@, value),
{
    let mut k: usize = 0;
    while k < ranges.len()
        invariant
            k <= ranges.len(),
            forall|j: int| 0 <= j < k ==> !((#[trigger] ranges[j]).start <= value <= ranges[j].end),
        decreases ranges.len() - k,
    {
        if ranges[k].start <= value && value <= ranges[k].end {
            return true;
        }
        k += 1;
    }
    false
}

/// The configuration of a sandbox.
pub struct SandboxConfig {
    pub config_file: Option<String>,
    pub image_dir: String,
    pub image_dir_levels: u32,
    pub used_images_list: Option<String>,
    pub log_file: Option<String>,
    pub log_level: Option<String>,
    pub readonly_paths: Vec<(String, String)>,
    pub writable_paths: Vec<(String, String)>,
    pub allow_users: Vec<Range>,
    pub allow_groups: Vec<Range>,
    pub allow_tcp_ports: Vec<Range>,
    pub additional_hosts: Vec<(String, String)>,
    pub uid_map: Vec<IdMap>,
    pub gid_map: Vec<IdMap>,
    pub auto_clean: bool,
}

/// Whether a piece of a path between two `/` counts as a directory of its
/// own: an empty piece and `.` do not.
pub open spec fn is_level(piece: Seq<char>) -> bool {
    piece.len() > 0 && piece != seq!['.']
}

/// How many of the first `n` pieces count.
pub open spec fn levels(pieces: Seq<Seq<char>>, n: int) -> int
    decreases n,
{
    if n <= 0 {
        0
    } else if is_level(pieces[n - 1]) {
        levels(pieces, n - 1) + 1
    } else {
        levels(pieces, n - 1)
    }
}

/// Whether an image's path is made of plain names only: it does not start
/// at the root or with `.`, and no piece of it is `..`.
pub open spec fn is_plain_path(path: Seq<char>) -> bool {
    let pieces = split(path, '/');
    &&& path.len() > 0 ==> path[0] != '/'
    &&& pieces[0] != seq!['.']
    &&& forall|k: int| 0 <= k < pieces.len() ==> #[trigger] pieces[k] != seq!['.', '.']
}

impl SandboxConfig {
    /// Whether an image's path is made of plain names and lies as deep
    /// below the image directory as the sandbox asks.
    pub fn check_path(&self, path: &str) -> (b: bool)
        ensures
            b == (is_plain_path(path@) && levels(
                split(path@, '/'),
                split(path@, '/').len() as int,
            ) == self.image_dir_levels),
    {
        let pieces = split_text(path, '/');
        let ghost ps = split(path@, '/');
        proof {
            crate::text::lemma_split_nonempty(path@, '/');
            crate::text::lemma_split_first(path@, '/');
            reveal_strlit(".");
            reveal_strlit("..");
        }
        let n: usize = pieces.len();
        let mut num: u64 = 0;
        let mut k: usize = 0;
        let mut plain: bool = true;
        while k < n
            invariant
                k <= n == pieces.len(),
                texts(pieces@) == ps,
                "."@ == seq!['.'],
                ".."@ == seq!['.', '.'],
                num == levels(ps, k as int),
                num <= k,
                plain == (forall|j: int| 0 <= j < k ==> #[trigger] ps[j] != seq!['.', '.']),
            decreases n - k,
        {
            assert(ps[k as int] == pieces[k as int]@);
            let piece = pieces[k].as_str();
            if same_text(piece, "..") {
                plain = false;
                num += 1;
            } else if !piece.is_empty() && !same_text(piece, ".") {
                num += 1;
            }
            k += 1;
        }
        assert(ps[0] == pieces[0]@);
        let rooted = pieces[0].as_str().is_empty() && n > 1;
        let dotted = same_text(pieces[0].as_str(), ".");
        plain && !rooted && !dotted && num == self.image_dir_levels as u64
    }
}

/// What is wrong with a sandbox.
#[derive(Clone, Copy, Debug, PartialEq, Eq, Structural)]
pub enum SandboxFault {
    /// No range of users is allowed.
    NoUsers,
    /// No range of groups is allowed.
    NoGroups,
}

/// The faults of a sandbox: a sandbox has to allow some users and some
/// groups.
pub open spec fn sandbox_faults(users: int, groups: int) -> Seq<SandboxFault> {
    (if users == 0 {
        seq![SandboxFault::NoUsers]
    } else {
        Seq::empty()
    }) + (if groups == 0 {
        seq![SandboxFault::NoGroups]
    } else {
        Seq::empty()
    })
}

/// The faults of a sandbox.
pub fn check_sandbox_config(sandbox: &SandboxConfig) -> (faults: Vec<SandboxFault>)
    ensures
        faults@ == sandbox_faults(
            sandbox.allow_users.len() as int,
            sandbox.allow_groups.len() as int,
        ),
{
    let mut faults: Vec<SandboxFault> = Vec::new();
    if sandbox.allow_users.len() == 0 {
        faults.push(SandboxFault::NoUsers);
    }
    if sandbox.allow_groups.len() == 0 {
        faults.push(SandboxFault::NoGroups);
    }
    assert(faults@ =~= sandbox_faults(
        sandbox.allow_users.len() as int,
        sandbox.allow_groups.len() as int,
    ));
    faults
}

} // verus!
