use vstd::arithmetic::div_mod::*;
use vstd::prelude::*;

verus! {

/// Bytes of payload that one report carries.
pub const WINDOW: usize = 57;

/// Size of one report on the wire, report id included.
pub const REPORT_LEN: usize = 65;

/// The longest logical command whose length and offsets fit the 24-bit fields.
pub const MAX_COMMAND_LEN: usize = 0xff_ffff;

/// Opcode of a logical command: the first byte of its stream.
pub open spec fn opcode(prefix: Seq<u8>, payload: Seq<u8>) -> u8 {
    if prefix.len() > 0 {
        prefix[0]
    } else {
        payload[0]
    }
}

/// Number of reports a command of `total` bytes needs: `ceil(total / 57)`.
pub open spec fn report_count(total: nat) -> nat {
    (total + 56) / 57
}

/// Byte `k` (0, 1 or 2) of `v` as a little-endian 24-bit field.
pub open spec fn le24_byte(v: nat, k: int) -> u8 {
    if k == 0 {
        (v % 256) as u8
    } else if k == 1 {
        (v / 256 % 256) as u8
    } else {
        (v / 65536 % 256) as u8
    }
}

/// The value of a little-endian 24-bit field at `r[at..at + 3]`.
pub open spec fn le24_at(r: Seq<u8>, at: int) -> nat {
    (r[at] + 256 * r[at + 1] + 65536 * r[at + 2]) as nat
}

/// The report that carries the window of `stream` at offset `ofs`.
pub open spec fn report(cmd: u8, stream: Seq<u8>, ofs: nat) -> Seq<u8> {
    Seq::new(
        65,
        |k: int|
            if k == 0 {
                0u8
            } else if k == 1 {
                cmd
            } else if k < 5 {
                le24_byte(stream.len(), k - 2)
            } else if k < 8 {
                le24_byte(ofs, k - 5)
            } else if k - 8 < 57 && ofs + k - 8 < stream.len() {
                stream[ofs + k - 8]
            } else {
                0u8
            },
    )
}

/// The reports that carry the command `prefix ++ payload`, in offset order.
pub open spec fn reports(prefix: Seq<u8>, payload: Seq<u8>) -> Seq<Seq<u8>> {
    Seq::new(
        report_count((prefix + payload).len()),
        |i: int| report(opcode(prefix, payload), prefix + payload, (57 * i) as nat),
    )
}

/// The logical stream as read back out of the payload windows of `rs`.
pub open spec fn reassemble(rs: Seq<Seq<u8>>, total: nat) -> Seq<u8> {
    Seq::new(total, |j: int| rs[j / 57][8 + j % 57])
}

/// Splits the command `prefix ++ payload` into 65-byte reports.
pub fn packetize(prefix: &[u8], payload: &[u8]) -> (r: Vec<[u8; 65]>)
    requires
        0 < prefix@.len() + payload@.len() <= MAX_COMMAND_LEN,
    ensures
        r@.len() == reports(prefix@, payload@).len(),
        forall|i: int| 0 <= i < r@.len() ==> (#[trigger] r@[i])@ == reports(prefix@, payload@)[i],
{
    let plen = prefix.len();
    let len = plen + payload.len();
    let ghost stream = prefix@ + payload@;
    let cmd = if plen > 0 {
        prefix[0]
    } else {
        payload[0]
    };
    let mut out: Vec<[u8; 65]> = Vec::new();
    let mut ofs: usize = 0;
    while ofs < len
        invariant
            plen == prefix@.len(),
            len == stream.len(),
            stream == prefix@ + payload@,
            0 < len <= MAX_COMMAND_LEN,
            cmd == opcode(prefix@, payload@),
            ofs == 57 * out@.len(),
            out@.len() <= report_count(len as nat),
            ofs < len ==> out@.len() < report_count(len as nat),
            ofs >= len ==> out@.len() == report_count(len as nat),
            forall|i: int| 0 <= i < out@.len() ==> (#[trigger] out@[i])@ == report(cmd, stream, (57 * i) as nat),
        decreases report_count(len as nat) - out@.len(),
    {
        let mut data = [0u8; 65];
        data[1] = cmd;
        data[2] = (len % 256) as u8;
        data[3] = (len / 256 % 256) as u8;
        data[4] = (len / 65536 % 256) as u8;
        data[5] = (ofs % 256) as u8;
        data[6] = (ofs / 256 % 256) as u8;
        data[7] = (ofs / 65536 % 256) as u8;
        let end = if ofs + 57 < len {
            ofs + 57
        } else {
            len
        };
        let mut j: usize = ofs;
        while j < end
            invariant
                plen == prefix@.len(),
                len == stream.len(),
                stream == prefix@ + payload@,
                ofs <= j <= end <= len,
                end <= ofs + 57,
                end == ofs + 57 || end == len,
                forall|k: int|
                    0 <= k < 65 && !(8 + j - ofs <= k < 8 + end - ofs) ==> data@[k] == report(
                        cmd,
                        stream,
                        ofs as nat,
                    )[k],
                forall|k: int| 8 + j - ofs <= k < 65 ==> data@[k] == 0,
            decreases end - j,
        {
            let b = if j >= plen {
                payload[j - plen]
            } else {
                prefix[j]
            };
            data[j - ofs + 8] = b;
            j = j + 1;
        }
        assert(data@ =~= report(cmd, stream, ofs as nat));
        out.push(data);
        ofs = ofs + 57;
    }
    assert(out@.len() == report_count(len as nat));
    out
}

proof fn lemma_le24_round_trip(v: nat)
    requires
        v < 0x100_0000,
    ensures
        le24_byte(v, 0) + 256 * le24_byte(v, 1) + 65536 * le24_byte(v, 2) == v,
{
    lemma_fundamental_div_mod(v as int, 256);
    lemma_fundamental_div_mod(v as int / 256, 256);
    lemma_div_denominator(v as int, 256, 256);
    assert(v / 256 / 256 == v / 65536);
    lemma_fundamental_div_mod(v as int, 65536);
    assert(v / 65536 < 256) by (nonlinear_arith)
        requires
            v == 65536 * (v / 65536) + v % 65536,
            v % 65536 >= 0,
            v < 0x100_0000,
    ;
    lemma_small_mod((v / 65536) as nat, 256);
}

/// A command of `L` bytes goes out in `ceil(L / 57)` reports; each report names
/// the command's opcode and length, report `i` gives its offset as `57 * i`, and
/// the payload windows read back in report order give `prefix ++ payload` byte
/// for byte.
pub proof fn lemma_packetization(prefix: Seq<u8>, payload: Seq<u8>)
    requires
        0 < prefix.len() + payload.len() <= MAX_COMMAND_LEN,
    ensures
        reports(prefix, payload).len() * 57 >= (prefix + payload).len(),
        (reports(prefix, payload).len() - 1) * 57 < (prefix + payload).len(),
        forall|i: int|
            0 <= i < reports(prefix, payload).len() ==> {
                &&& (#[trigger] reports(prefix, payload)[i]).len() == 65
                &&& reports(prefix, payload)[i][0] == 0
                &&& reports(prefix, payload)[i][1] == opcode(prefix, payload)
                &&& le24_at(reports(prefix, payload)[i], 2) == (prefix + payload).len()
                &&& le24_at(reports(prefix, payload)[i], 5) == 57 * i
            },
        reassemble(reports(prefix, payload), (prefix + payload).len()) == prefix + payload,
{
    let stream = prefix + payload;
    let l = stream.len();
    let rs = reports(prefix, payload);
    let n = rs.len();
    lemma_fundamental_div_mod((l + 56) as int, 57);
    assert(n * 57 >= l && (n - 1) * 57 < l) by (nonlinear_arith)
        requires
            n == (l + 56) / 57,
            l + 56 == 57 * ((l + 56) / 57) + (l + 56) % 57,
            0 <= (l + 56) % 57 < 57,
    ;
    assert forall|i: int| 0 <= i < n implies {
        &&& (#[trigger] rs[i]).len() == 65
        &&& rs[i][0] == 0
        &&& rs[i][1] == opcode(prefix, payload)
        &&& le24_at(rs[i], 2) == l
        &&& le24_at(rs[i], 5) == 57 * i
    } by {
        assert(57 * i < l) by (nonlinear_arith)
            requires
                0 <= i < n,
                (n - 1) * 57 < l,
        ;
        lemma_le24_round_trip(l);
        lemma_le24_round_trip((57 * i) as nat);
    }
    assert forall|j: int| 0 <= j < l implies #[trigger] reassemble(rs, l)[j] == stream[j] by {
        lemma_fundamental_div_mod(j, 57);
        let q = j / 57;
        assert(q < n) by (nonlinear_arith)
            requires
                j == 57 * q + j % 57,
                0 <= j % 57 < 57,
                j < l,
                n * 57 >= l,
        ;
        assert(q >= 0) by {
            lemma_div_pos_is_pos(j, 57);
        }
    }
    assert(reassemble(rs, l) =~= stream);
}

} // verus!
