use vstd::prelude::*;

verus! {

// One physical line is one record; fields are separated by a single pipe
// byte, with no escaping or quoting.  Splitting an empty sequence yields one
// empty piece, exactly as the delimiter-counting view of splitting demands.


// Byte values of the ASCII characters the record grammar speaks of.
pub const B0: u8 = 48;
pub const B1: u8 = 49;
pub const B2: u8 = 50;
pub const B3: u8 = 51;
pub const B4: u8 = 52;
pub const B5: u8 = 53;
pub const B6: u8 = 54;
pub const B7: u8 = 55;
pub const B8: u8 = 56;
pub const B9: u8 = 57;
pub const BC: u8 = 67;
pub const BD: u8 = 68;
pub const BF: u8 = 70;
pub const BM: u8 = 77;

/// The byte views of a sequence of byte vectors.
pub open spec fn seqs_of(v: Seq<Vec<u8>>) -> Seq<Seq<u8>> {
    v.map_values(|x: Vec<u8>| x@)
}

/// Splitting `s` at every occurrence of `d`: always one more piece than
/// there are delimiters, pieces in order, none containing `d`.
pub open spec fn spec_split(s: Seq<u8>, d: u8) -> Seq<Seq<u8>>
    decreases s.len(),
{
    if s.len() == 0 {
        seq![Seq::<u8>::empty()]
    } else {
        let prev = spec_split(s.drop_last(), d);
        if s.last() == d {
            prev.push(Seq::<u8>::empty())
        } else {
            prev.update(prev.len() - 1, prev.last().push(s.last()))
        }
    }
}

pub proof fn lemma_split_nonempty(s: Seq<u8>, d: u8)
    ensures
        spec_split(s, d).len() >= 1,
    decreases s.len(),
{
    if s.len() > 0 {
        lemma_split_nonempty(s.drop_last(), d);
    }
}

/// A line stripped of one trailing carriage return, as the line reader of
/// the original byte stream hands lines out.
pub open spec fn strip_cr(l: Seq<u8>) -> Seq<u8> {
    if l.len() > 0 && l.last() == 13 {
        l.drop_last()
    } else {
        l
    }
}

/// The lines of a document: split at every newline byte.
pub open spec fn spec_lines(content: Seq<u8>) -> Seq<Seq<u8>> {
    spec_split(content, 10)
}

/// The fields of one line: strip a trailing carriage return, then split at
/// every pipe byte.  Field 1 is the record-type tag.
pub open spec fn spec_fields(line: Seq<u8>) -> Seq<Seq<u8>> {
    spec_split(strip_cr(line), 124)
}

/// Whether a field holds exactly the one byte `a`.
pub fn field_is1(v: &Vec<u8>, a: u8) -> (r: bool)
    ensures
        r == (v@ == seq![a]),
{
    if v.len() == 1 && v[0] == a {
        proof {
            assert(v@ =~= seq![a]);
        }
        true
    } else {
        proof {
            assert(v@ != seq![a]);
        }
        false
    }
}

/// Whether a field holds exactly the two bytes `a b`.
pub fn field_is2(v: &Vec<u8>, a: u8, b: u8) -> (r: bool)
    ensures
        r == (v@ == seq![a, b]),
{
    if v.len() == 2 && v[0] == a && v[1] == b {
        proof {
            assert(v@ =~= seq![a, b]);
        }
        true
    } else {
        proof {
            assert(v@ != seq![a, b]);
        }
        false
    }
}

/// Whether a field holds exactly the four bytes `a b c d`.
pub fn field_is4(v: &Vec<u8>, a: u8, b: u8, c: u8, d: u8) -> (r: bool)
    ensures
        r == (v@ == seq![a, b, c, d]),
{
    if v.len() == 4 && v[0] == a && v[1] == b && v[2] == c && v[3] == d {
        proof {
            assert(v@ =~= seq![a, b, c, d]);
        }
        true
    } else {
        proof {
            assert(v@ != seq![a, b, c, d]);
        }
        false
    }
}

/// Splits `s[0..to]` at every occurrence of `d`.
pub fn split_range(s: &Vec<u8>, to: usize, d: u8) -> (r: Vec<Vec<u8>>)
    requires
        to <= s@.len(),
    ensures
        seqs_of(r@) == spec_split(s@.take(to as int), d),
{
    let mut out: Vec<Vec<u8>> = Vec::new();
    let mut cur: Vec<u8> = Vec::new();
    let mut j: usize = 0;
    proof {
        assert(s@.take(0) =~= Seq::<u8>::empty());
        assert(seqs_of(out@).push(cur@) =~= spec_split(s@.take(0), d));
    }
    while j < to
        invariant
            0 <= j <= to <= s@.len(),
            seqs_of(out@).push(cur@) == spec_split(s@.take(j as int), d),
        decreases to - j,
    {
        let ghost pre = s@.take(j as int);
        let ghost post = s@.take(j as int + 1);
        proof {
            assert(post.drop_last() =~= pre);
            assert(post.last() == s@[j as int]);
            lemma_split_nonempty(pre, d);
        }
        if s[j] == d {
            out.push(cur);
            cur = Vec::new();
            proof {
                assert(seqs_of(out@).push(cur@) =~= spec_split(post, d));
            }
        } else {
            cur.push(s[j]);
            proof {
                let prev = spec_split(pre, d);
                assert(seqs_of(out@).push(cur@) =~= prev.update(
                    prev.len() - 1,
                    prev.last().push(s@[j as int]),
                ));
            }
        }
        j += 1;
    }
    out.push(cur);
    proof {
        assert(seqs_of(out@) =~= spec_split(s@.take(to as int), d));
    }
    out
}

/// Splits a whole document into its physical lines.
pub fn split_document_lines(content: &Vec<u8>) -> (r: Vec<Vec<u8>>)
    ensures
        seqs_of(r@) == spec_lines(content@),
{
    let n = content.len();
    let r = split_range(content, n, 10);
    proof {
        assert(content@.take(n as int) =~= content@);
    }
    r
}

/// Splits one line into its fields.
pub fn split_line_fields(line: &Vec<u8>) -> (r: Vec<Vec<u8>>)
    ensures
        seqs_of(r@) == spec_fields(line@),
{
    let n = line.len();
    let to = if n > 0 && line[n - 1] == 13 {
        n - 1
    } else {
        n
    };
    let r = split_range(line, to, 124);
    proof {
        assert(line@.take(to as int) =~= strip_cr(line@));
    }
    r
}

} // verus!
