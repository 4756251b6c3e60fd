//! GPU capability as found by a probe of the host.

use vstd::prelude::*;

use crate::text::is_first_index;

verus! {

/// Characters with the Unicode `White_Space` property, which `str::trim` removes.
pub open spec fn is_white_space(c: char) -> bool {
    let n = c as int;
    (9 <= n <= 13) || n == 32 || n == 0x85 || n == 0xa0 || n == 0x1680 || (0x2000 <= n <= 0x200a)
        || n == 0x2028 || n == 0x2029 || n == 0x202f || n == 0x205f || n == 0x3000
}

fn white_space(c: char) -> (r: bool)
    ensures
        r == is_white_space(c),
{
    let n = c as u32;
    (9 <= n && n <= 13) || n == 32 || n == 0x85 || n == 0xa0 || n == 0x1680 || (0x2000 <= n && n
        <= 0x200a) || n == 0x2028 || n == 0x2029 || n == 0x202f || n == 0x205f || n == 0x3000
}

/// `s` without leading white space.
pub open spec fn trim_front(s: Seq<char>) -> Seq<char>
    decreases s.len(),
{
    if s.len() > 0 && is_white_space(s[0]) {
        trim_front(s.drop_first())
    } else {
        s
    }
}

/// `s` without trailing white space.
pub open spec fn trim_back(s: Seq<char>) -> Seq<char>
    decreases s.len(),
{
    if s.len() > 0 && is_white_space(s.last()) {
        trim_back(s.drop_last())
    } else {
        s
    }
}

/// `s` without leading or trailing white space.
pub open spec fn trimmed(s: Seq<char>) -> Seq<char> {
    trim_back(trim_front(s))
}

/// What precedes the first comma of `s`; all of `s` when it holds none.
pub open spec fn before_comma(s: Seq<char>) -> Seq<char> {
    if exists|i: int| is_first_index(s, ',', i) {
        s.subrange(0, choose|i: int| is_first_index(s, ',', i))
    } else {
        s
    }
}

/// The pieces of `s` between newline characters; the last may be empty.
pub open spec fn newline_pieces(s: Seq<char>) -> Seq<Seq<char>>
    decreases s.len(),
{
    if s.len() == 0 {
        seq![Seq::empty()]
    } else {
        let p = newline_pieces(s.drop_last());
        if s.last() == '\n' {
            p.push(Seq::empty())
        } else {
            p.update(p.len() - 1, p.last().push(s.last()))
        }
    }
}

/// A line ended by a newline loses the carriage return before it.
pub open spec fn strip_cr(l: Seq<char>) -> Seq<char> {
    if l.len() > 0 && l.last() == '\r' {
        l.drop_last()
    } else {
        l
    }
}

/// The device names in lines `ls`: of each non-empty line, its first
/// comma-separated field, trimmed.
pub open spec fn names_of_lines(ls: Seq<Seq<char>>) -> Seq<Seq<char>>
    decreases ls.len(),
{
    if ls.len() == 0 {
        Seq::empty()
    } else {
        names_of_lines(ls.drop_last()) + if ls.last().len() > 0 {
            seq![trimmed(before_comma(ls.last()))]
        } else {
            Seq::<Seq<char>>::empty()
        }
    }
}

/// The device names in a GPU query's CSV output, one device per line, as
/// `str::lines` splits it: every line ended by a newline loses a carriage
/// return before it, and the last line counts only when it is not empty.
pub open spec fn device_names(out: Seq<char>) -> Seq<Seq<char>> {
    let p = newline_pieces(out);
    names_of_lines(p.drop_last().map_values(|l: Seq<char>| strip_cr(l)) + seq![p.last()])
}

/// The kind of accelerator a host offers to containers.
#[derive(Debug, Clone, Copy, PartialEq, Eq, Structural)]
pub enum GpuType {
    /// NVIDIA GPU with CUDA support.
    Nvidia,
    /// Apple Metal.
    Metal,
    /// No GPU available.
    NoGpu,
}

/// GPU configuration for container execution.
#[derive(Debug)]
pub struct GpuConfig {
    /// Type of GPU detected.
    pub gpu_type: GpuType,
    /// Number of GPUs available.
    pub count: usize,
    /// GPU device names.
    pub devices: Vec<String>,
}

impl GpuConfig {
    /// A host without any usable GPU.
    pub fn none() -> (r: GpuConfig)
        ensures
            r.gpu_type == GpuType::NoGpu,
            r.count == 0,
            r.devices@.len() == 0,
    {
        GpuConfig { gpu_type: GpuType::NoGpu, count: 0, devices: Vec::new() }
    }

    /// A GPU can be handed to a container.
    pub fn is_available(&self) -> (r: bool)
        ensures
            r == (self.gpu_type != GpuType::NoGpu && self.count > 0),
    {
        self.gpu_type != GpuType::NoGpu && self.count > 0
    }

    /// This is an NVIDIA GPU, which supports CUDA inside containers.
    pub fn is_nvidia(&self) -> (r: bool)
        ensures
            r == (self.gpu_type == GpuType::Nvidia),
    {
        self.gpu_type == GpuType::Nvidia
    }
}


proof fn lemma_pieces_nonempty(s: Seq<char>)
    ensures
        newline_pieces(s).len() >= 1,
    decreases s.len(),
{
    if s.len() > 0 {
        lemma_pieces_nonempty(s.drop_last());
    }
}

fn trim_text(s: &str) -> (r: String)
    ensures
        r@ == trimmed(s@),
{
    let n = s.unicode_len();
    let mut a: usize = 0;
    assert(s@.subrange(0, n as int) =~= s@);
    while a < n && white_space(s.get_char(a))
        invariant
            n == s@.len(),
            a <= n,
            trim_front(s@) == trim_front(s@.subrange(a as int, n as int)),
        decreases n - a,
    {
        assert(s@.subrange(a as int, n as int).drop_first() =~= s@.subrange(a + 1, n as int));
        a = a + 1;
    }
    let ghost front = s@.subrange(a as int, n as int);
    assert(trim_front(s@) == front) by {
        if a < n {
            assert(front[0] == s@[a as int]);
        }
    }
    let mut b: usize = n;
    while b > a && white_space(s.get_char(b - 1))
        invariant
            n == s@.len(),
            a <= b <= n,
            front == s@.subrange(a as int, n as int),
            trim_back(front) == trim_back(s@.subrange(a as int, b as int)),
        decreases b,
    {
        assert(s@.subrange(a as int, b as int).drop_last() =~= s@.subrange(a as int, b - 1));
        b = b - 1;
    }
    assert(trim_back(s@.subrange(a as int, b as int)) == s@.subrange(a as int, b as int)) by {
        if b > a {
            assert(s@.subrange(a as int, b as int).last() == s@[b - 1]);
        }
    }
    String::from_str(s.substring_char(a, b))
}

fn device_name(line: &str) -> (r: String)
    ensures
        r@ == trimmed(before_comma(line@)),
{
    let n = line.unicode_len();
    let mut k: usize = 0;
    while k < n && line.get_char(k) != ','
        invariant
            n == line@.len(),
            k <= n,
            forall|j: int| 0 <= j < k ==> line@[j] != ',',
        decreases n - k,
    {
        k = k + 1;
    }
    if k < n {
        assert(is_first_index(line@, ',', k as int));
        let ghost c = choose|c: int| is_first_index(line@, ',', c);
        assert(c == k) by {
            if c < k {
                assert(line@[c] != ',');
            } else if c > k {
                assert(line@[k as int] != ',');
            }
        }
    } else {
        assert(!exists|i: int| is_first_index(line@, ',', i));
        assert(line@.subrange(0, n as int) =~= line@);
    }
    trim_text(line.substring_char(0, k))
}

/// The device names in the CSV output of a GPU query: of each non-empty
/// line, the first field, trimmed.
pub fn parse_device_names(out: &str) -> (r: Vec<String>)
    ensures
        r@.map_values(|d: String| d@) == device_names(out@),
{
    let n = out.unicode_len();
    let mut names: Vec<String> = Vec::new();
    let mut start: usize = 0;
    let mut i: usize = 0;
    while i < n
        invariant
            n == out@.len(),
            start <= i <= n,
            newline_pieces(out@.subrange(0, i as int)).last() == out@.subrange(start as int, i as int),
            names@.map_values(|d: String| d@) == names_of_lines(
                newline_pieces(out@.subrange(0, i as int)).drop_last().map_values(
                    |l: Seq<char>| strip_cr(l),
                ),
            ),
        decreases n - i,
    {
        let ghost pre = out@.subrange(0, i as int);
        let ghost p = newline_pieces(pre);
        proof {
            lemma_pieces_nonempty(pre);
        }
        let ghost post = out@.subrange(0, i + 1);
        assert(post.drop_last() =~= pre);
        let c = out.get_char(i);
        assert(post.last() == c);
        if c == '\n' {
            let end = if i > start && out.get_char(i - 1) == '\r' {
                i - 1
            } else {
                i
            };
            let line = out.substring_char(start, end);
            assert(line@ == strip_cr(p.last())) by {
                let l = p.last();
                if i > start {
                    assert(l.last() == out@[i - 1]);
                }
                if end < i {
                    assert(l.drop_last() =~= out@.subrange(start as int, end as int));
                }
            }
            let ghost before = names@.map_values(|d: String| d@);
            if line.unicode_len() > 0 {
                let name = device_name(line);
                names.push(name);
                assert(names@.map_values(|d: String| d@) =~= before.push(name@));
            } else {
                assert(names@.map_values(|d: String| d@) =~= before);
            }
            let ghost q = newline_pieces(post);
            assert(q == p.push(Seq::empty()));
            assert(q.drop_last() =~= p);
            assert(p =~= p.drop_last().push(p.last()));
            let ghost m = p.drop_last().map_values(|l: Seq<char>| strip_cr(l));
            assert(p.map_values(|l: Seq<char>| strip_cr(l)) =~= m.push(strip_cr(p.last())));
            assert(m.push(strip_cr(p.last())).drop_last() =~= m);
            start = i + 1;
            assert(out@.subrange(start as int, i + 1) =~= Seq::<char>::empty());
        } else {
            let ghost q = newline_pieces(post);
            assert(q == p.update(p.len() - 1, p.last().push(c)));
            assert(q.drop_last() =~= p.drop_last());
            assert(out@.subrange(start as int, i + 1) =~= out@.subrange(start as int, i as int).push(c));
        }
        i = i + 1;
    }
    assert(out@.subrange(0, n as int) =~= out@);
    let ghost p = newline_pieces(out@);
    let ghost m = p.drop_last().map_values(|l: Seq<char>| strip_cr(l));
    let ghost before = names@.map_values(|d: String| d@);
    let last = out.substring_char(start, n);
    assert((m + seq![p.last()]).drop_last() =~= m);
    assert((m + seq![p.last()]).last() == last@);
    if last.unicode_len() > 0 {
        let name = device_name(last);
        names.push(name);
        assert(names@.map_values(|d: String| d@) =~= before.push(name@));
    } else {
        assert(names@.map_values(|d: String| d@) =~= before);
    }
    names
}

} // verus!
