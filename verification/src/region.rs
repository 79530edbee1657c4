use vstd::prelude::*;
use vstd::string::StringExecFns;
use crate::errors::MemMapError;
use crate::parsing::{
    dev_fields,
    kept_modes,
    lemma_split_on_len,
    parse_dec_i32,
    parse_dev,
    parse_hex_usize,
    parse_modes,
    spec_dec_i32,
    spec_hex_usize,
    split_on,
    split_ranges,
    ws_fields,
    ws_tokens,
};

verus! {

/// The mathematical image of one memory region: plain numbers and byte
/// strings, with the size left out because it is derived from the range.
#[verifier::ext_equal]
pub ghost struct RegionView {
    pub start: int,
    pub end: int,
    pub modes: Seq<u8>,
    pub offset: int,
    pub dev: (Seq<u8>, Seq<u8>),
    pub inode: int,
    pub mapping: Seq<u8>,
}

/// One contiguous range of a process's virtual address space with uniform
/// permissions, as one line of the per-process memory map describes it.
///
/// `range` holds the start and end addresses; `size` is derived from them
/// and never set independently.  `modes` holds the permission characters of
/// the mode token.  `versions` holds the two halves of the device field, two
/// empty strings when the field has no colon.  `inode_id` is 0 and `mapping`
/// empty for anonymous mappings.
#[derive(Debug)]
pub struct MemMap {
    pub range: (usize, usize),
    pub size: usize,
    pub modes: Vec<u8>,
    pub offset: usize,
    pub inode_id: i32,
    pub versions: (Vec<u8>, Vec<u8>),
    pub mapping: Vec<u8>,
}

impl View for MemMap {
    type V = RegionView;

    open spec fn view(&self) -> RegionView {
        RegionView {
            start: self.range.0 as int,
            end: self.range.1 as int,
            modes: self.modes@,
            offset: self.offset as int,
            dev: (self.versions.0@, self.versions.1@),
            inode: self.inode_id as int,
            mapping: self.mapping@,
        }
    }
}

impl MemMap {
    /// The range never runs backwards and the size is exactly its width.
    pub open spec fn wf(&self) -> bool {
        self.range.0 <= self.range.1 && self.size == self.range.1 - self.range.0
    }
}

/// What can invalidate one map line.
pub enum LineFault {
    /// Fewer than five whitespace-delimited fields.
    MissingFields,
    /// A numeric field that is not a valid number of its base, a range field
    /// without a dash, or a value that does not fit its type.
    BadNumber,
    /// An address range whose end precedes its start.
    InvertedRange,
}

/// Which error a line fault surfaces as.
pub open spec fn fault_to_error(f: LineFault, e: MemMapError) -> bool {
    match f {
        LineFault::MissingFields => e is OtherError,
        LineFault::BadNumber => e is ParseIntError,
        LineFault::InvertedRange => e is OtherError,
    }
}

/// The meaning of one map line.  Field 0 is "start-end" in hexadecimal;
/// field 1 the mode token; field 2 the hexadecimal file offset; field 3 the
/// device field; field 4 the signed decimal inode; field 5, if present, the
/// mapping path.  Fewer than five fields, a bad number, or a backwards range
/// is a fault.
pub open spec fn spec_parse_line(line: Seq<u8>) -> Result<RegionView, LineFault> {
    let f = ws_tokens(line);
    if f.len() < 5 {
        Err(LineFault::MissingFields)
    } else {
        let rp = split_on(f[0], 45);
        if rp.len() < 2 {
            Err(LineFault::BadNumber)
        } else {
            match (spec_hex_usize(rp[0]), spec_hex_usize(rp[1]), spec_hex_usize(f[2]),
            spec_dec_i32(f[4])) {
                (Some(start), Some(end), Some(offset), Some(inode)) => {
                    if end < start {
                        Err(LineFault::InvertedRange)
                    } else {
                        Ok(
                            RegionView {
                                start: start as int,
                                end: end as int,
                                modes: kept_modes(f[1]),
                                offset: offset as int,
                                dev: dev_fields(f[3]),
                                inode: inode as int,
                                mapping: if f.len() >= 6 {
                                    f[5]
                                } else {
                                    Seq::empty()
                                },
                            },
                        )
                    }
                },
                _ => Err(LineFault::BadNumber),
            }
        }
    }
}

/// Parses one map line into a region, or reports why it is invalid.
pub fn parse_line(line: &[u8]) -> (r: Result<MemMap, MemMapError>)
    ensures
        match spec_parse_line(line@) {
            Ok(g) => r is Ok && r->Ok_0@ == g && r->Ok_0.wf(),
            Err(f) => r is Err && fault_to_error(f, r->Err_0),
        },
{
    let fields = ws_fields(line);
    if fields.len() < 5 {
        return Err(
            MemMapError::OtherError(
                String::from_str("map line holds fewer than five fields"),
            ),
        );
    }
    let (a0, b0) = (fields[0].0, fields[0].1);
    let f0 = &line[a0..b0];
    let rp = split_ranges(f0, 45);
    proof {
        lemma_split_on_len(f0@, 45);
    }
    if rp.len() < 2 {
        return Err(MemMapError::ParseIntError);
    }
    let start = match parse_hex_usize(&f0[rp[0].0..rp[0].1]) {
        Some(v) => v,
        None => {
            return Err(MemMapError::ParseIntError);
        },
    };
    let end = match parse_hex_usize(&f0[rp[1].0..rp[1].1]) {
        Some(v) => v,
        None => {
            return Err(MemMapError::ParseIntError);
        },
    };
    let (a2, b2) = (fields[2].0, fields[2].1);
    let offset = match parse_hex_usize(&line[a2..b2]) {
        Some(v) => v,
        None => {
            return Err(MemMapError::ParseIntError);
        },
    };
    let (a4, b4) = (fields[4].0, fields[4].1);
    let inode_id = match parse_dec_i32(&line[a4..b4]) {
        Some(v) => v,
        None => {
            return Err(MemMapError::ParseIntError);
        },
    };
    if end < start {
        return Err(
            MemMapError::OtherError(String::from_str("map line range runs backwards")),
        );
    }
    let (a1, b1) = (fields[1].0, fields[1].1);
    let modes = parse_modes(&line[a1..b1]);
    let (a3, b3) = (fields[3].0, fields[3].1);
    let versions = parse_dev(&line[a3..b3]);
    let mapping: Vec<u8> = if fields.len() >= 6 {
        let (a5, b5) = (fields[5].0, fields[5].1);
        vstd::slice::slice_to_vec(&line[a5..b5])
    } else {
        Vec::new()
    };
    let region = MemMap {
        range: (start, end),
        size: end - start,
        modes,
        offset,
        inode_id,
        versions,
        mapping,
    };
    proof {
        assert(region@ =~= spec_parse_line(line@)->Ok_0);
    }
    Ok(region)
}

/// A map line with fewer than five whitespace-delimited fields is a
/// structural fault of the whole text: by `parse_maps`' contract the parse
/// then returns a format error and no regions at all.
pub proof fn lemma_short_line_is_format_fault(content: Seq<u8>, i: int)
    requires
        0 <= i < spec_lines(content).len(),
        ws_tokens(spec_lines(content)[i]).len() < 5,
    ensures
        spec_parse_line(spec_lines(content)[i]) is Err,
        spec_parse_line(spec_lines(content)[i])->Err_0 is MissingFields,
{
}

/// The lines of the map text: tokens split at every line feed, except that
/// the text's final line feed opens no further line.
pub open spec fn spec_lines(s: Seq<u8>) -> Seq<Seq<u8>> {
    let t = split_on(s, 10);
    if t.len() >= 1 && t.last().len() == 0 {
        t.drop_last()
    } else {
        t
    }
}

/// The half-open ranges of the lines of `s`, in order; range `k` delimits
/// line `k` of `spec_lines`.
pub fn byte_lines(s: &[u8]) -> (r: Vec<(usize, usize)>)
    ensures
        r@.len() == spec_lines(s@).len(),
        forall|k: int|
            0 <= k < r@.len() ==> (#[trigger] r@[k]).0 <= r@[k].1 <= s@.len(),
        forall|k: int|
            0 <= k < r@.len() ==> #[trigger] spec_lines(s@)[k] == s@.subrange(
                r@[k].0 as int,
                r@[k].1 as int,
            ),
{
    let mut r = split_ranges(s, 10);
    proof {
        assert(forall|k: int|
            0 <= k < r@.len() ==> (#[trigger] r@[k]).0 <= r@[k].1 <= s@.len() && split_on(s@, 10)[k]
                == s@.subrange(r@[k].0 as int, r@[k].1 as int));
    }
    proof {
        lemma_split_on_len(s@, 10);
    }
    let (last_a, last_b) = r[r.len() - 1];
    if last_a == last_b {
        proof {
            let t = split_on(s@, 10);
            assert(t.last() == s@.subrange(last_a as int, last_b as int));
            assert(t.last().len() == 0);
        }
        let ghost r_old = r@;
        r.pop();
        proof {
            let t = split_on(s@, 10);
            assert(r@ =~= r_old.drop_last());
            assert(spec_lines(s@) =~~= t.drop_last());
            assert forall|k: int|
                0 <= k < r@.len() implies (#[trigger] r@[k]).0 <= r@[k].1 <= s@.len()
                && spec_lines(s@)[k] == s@.subrange(r@[k].0 as int, r@[k].1 as int) by {
                assert(r@[k] == r_old[k]);
                assert(t[k] == s@.subrange(r_old[k].0 as int, r_old[k].1 as int));
                assert(spec_lines(s@)[k] == t.drop_last()[k]);
                assert(t.drop_last()[k] == t[k]);
            }
        }
        return r;
    }
    proof {
        let t = split_on(s@, 10);
        assert(t.last() == s@.subrange(last_a as int, last_b as int));
        assert(t.last().len() != 0);
        assert(spec_lines(s@) == t);
    }
    r
}

impl MemMap {
    /// Parses the whole map text, all-or-nothing: well-formed text with N
    /// lines gives exactly N regions in input order, each the image of its
    /// line with its size derived from its range; one bad line anywhere
    /// aborts the parse with the fault of the first bad line and no regions
    /// at all.
    pub fn parse_maps(content: &[u8]) -> (r: Result<Vec<MemMap>, MemMapError>)
        ensures
            (r is Ok) == (forall|k: int|
                0 <= k < spec_lines(content@).len() ==> spec_parse_line(
                    #[trigger] spec_lines(content@)[k],
                ) is Ok),
            r is Ok ==> {
                &&& r->Ok_0@.len() == spec_lines(content@).len()
                &&& forall|k: int|
                    0 <= k < r->Ok_0@.len() ==> #[trigger] r->Ok_0@[k]@ == spec_parse_line(
                        spec_lines(content@)[k],
                    )->Ok_0 && r->Ok_0@[k].wf()
            },
            r is Err ==> exists|i: int|
                {
                    &&& 0 <= i < spec_lines(content@).len()
                    &&& (forall|k: int|
                        0 <= k < i ==> spec_parse_line(#[trigger] spec_lines(content@)[k]) is Ok)
                    &&& spec_parse_line(#[trigger] spec_lines(content@)[i]) is Err
                    &&& fault_to_error(spec_parse_line(spec_lines(content@)[i])->Err_0, r->Err_0)
                },
    {
        let lines = byte_lines(content);
        let mut regions: Vec<MemMap> = Vec::new();
        let mut k: usize = 0;
        while k < lines.len()
            invariant
                0 <= k <= lines@.len(),
                lines@.len() == spec_lines(content@).len(),
                forall|j: int|
                    0 <= j < lines@.len() ==> #[trigger] lines@[j].0 <= lines@[j].1 <= content@.len()
                        && spec_lines(content@)[j] == content@.subrange(
                        lines@[j].0 as int,
                        lines@[j].1 as int,
                    ),
                regions@.len() == k,
                forall|j: int|
                    0 <= j < k ==> spec_parse_line(#[trigger] spec_lines(content@)[j]) is Ok,
                forall|j: int|
                    0 <= j < k ==> #[trigger] regions@[j]@ == spec_parse_line(
                        spec_lines(content@)[j],
                    )->Ok_0 && regions@[j].wf(),
            decreases lines@.len() - k,
        {
            let (a, b) = lines[k];
            match parse_line(&content[a..b]) {
                Ok(region) => {
                    regions.push(region);
                },
                Err(e) => {
                    proof {
                        assert(spec_parse_line(spec_lines(content@)[k as int]) is Err);
                    }
                    return Err(e);
                },
            }
            k = k + 1;
        }
        Ok(regions)
    }
}

} // verus!
