# rusty_erasure

GF(2^8) Reed-Solomon erasure coding and RAID-6 P+Q parity, byte-compatible
with Intel ISA-L's `erasure_code` and `raid` modules, written in Verus: every
function of the library carries a contract, and Verus proves the code meets it.

What is proved, among other things:

- the field: `mul`, `inv` and `mul_shift` compute the carry-less product
  modulo 0x11d and its inverse; the expanded nibble and affine tables
  multiply by their coefficients, so every kernel set computes the same bytes;
- encode writes `parity[l][i] = XOR_j G[k+l][j] * data[j][i]`; updating
  zeroed parity once per source, in any order, gives the same bytes; encoding
  is byte-wise, so segments can be processed separately;
- recovery rebuilds exactly the lost shards whenever the survivors' rows
  invert, and any `k` rows of the Cauchy matrix do invert, so a Cauchy stripe
  survives any `p` losses; the same holds of the Vandermonde-style matrix
  across ISA-L's safe region;
- the RAID generators compute `P = XOR_j D_j` and `Q = XOR_j 2^j * D_j`, and
  `pq_check` reports the first offending byte, P before Q;
- no entry point panics: misuse is a typed error.

Layout: `src/` is the verified library (`gf`, `tables`, `kernel`, `matrix`,
`gauss`, `algebra`, `decode`, `mds`, `rs_mds`, `rs_five`, `cert`, `encode`, `raid`,
`isal`, `compat`, `accel`, `fuzz`, `demo`); `tests/` runs it on concrete values, including
byte-compatibility with the `reed-solomon-erasure` crate; `app/` holds the
command-line front end, CPU detection, the error messages and the browser
demo's exports.
