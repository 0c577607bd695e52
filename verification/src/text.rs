use vstd::prelude::*;
use vstd::string::*;
use vstd::utf8::*;

verus! {

/// Checks whether `bytes` is a well-formed UTF-8 encoding, in the sense of
/// `vstd::utf8::valid_utf8`: every scalar is encoded with the right leading
/// and continuation bytes, no encoding is overlong, and no codepoint falls
/// in the surrogate range.
pub fn check_utf8(bytes: &[u8]) -> (ok: bool)
    ensures
        ok == valid_utf8(bytes@),
{
    let n: usize = bytes.len();
    let mut i: usize = 0;
    while i < n
        invariant
            0 <= i <= n,
            n == bytes@.len(),
            partial_valid_utf8(bytes@, i as int),
        decreases n - i,
    {
        let ghost suffix = bytes@.subrange(i as int, n as int);
        let b0 = bytes[i];
        if b0 < 0x80 {
            proof {
                assert(suffix[0] == b0);
                assert(valid_first_scalar(suffix));
                assert(length_of_first_scalar(suffix) == 1);
                partial_valid_utf8_extend(bytes@, i as int);
            }
            i = i + 1;
        } else if 0xc0 <= b0 && b0 <= 0xdf {
            if n - i >= 2 {
                let b1 = bytes[i + 1];
                if 0x80 <= b1 && b1 <= 0xbf {
                    let cp: u32 = (((b0 & 0x1f) as u32) << 6) | ((b1 & 0x3f) as u32);
                    proof {
                        assert(suffix[0] == b0 && suffix[1] == b1);
                        assert(cp == codepoint_width_2(b0, b1));
                    }
                    if cp >= 0x80 {
                        proof {
                            assert(cp <= 0x7ff) by (bit_vector)
                                requires
                                    cp == (((b0 & 0x1f) as u32) << 6) | ((b1 & 0x3f) as u32),
                            ;
                            assert(valid_first_scalar(suffix));
                            assert(length_of_first_scalar(suffix) == 2);
                            partial_valid_utf8_extend(bytes@, i as int);
                        }
                        i = i + 2;
                    } else {
                        proof {
                            assert(!valid_first_scalar(suffix));
                            partial_valid_partial_invalid_utf8(bytes@, i as int);
                        }
                        return false;
                    }
                } else {
                    proof {
                        assert(suffix[0] == b0 && suffix[1] == b1);
                        assert(!valid_first_scalar(suffix));
                        partial_valid_partial_invalid_utf8(bytes@, i as int);
                    }
                    return false;
                }
            } else {
                proof {
                    assert(suffix[0] == b0);
                    assert(suffix.len() < 2);
                    assert(!valid_first_scalar(suffix));
                    partial_valid_partial_invalid_utf8(bytes@, i as int);
                }
                return false;
            }
        } else if 0xe0 <= b0 && b0 <= 0xef {
            if n - i >= 3 {
                let b1 = bytes[i + 1];
                let b2 = bytes[i + 2];
                if 0x80 <= b1 && b1 <= 0xbf && 0x80 <= b2 && b2 <= 0xbf {
                    let cp: u32 = (((b0 & 0x0f) as u32) << 12) | (((b1 & 0x3f) as u32) << 6) | ((
                    b2 & 0x3f) as u32);
                    proof {
                        assert(suffix[0] == b0 && suffix[1] == b1 && suffix[2] == b2);
                        assert(cp == codepoint_width_3(b0, b1, b2));
                    }
                    if cp >= 0x800 && !(0xd800 <= cp && cp <= 0xdfff) {
                        proof {
                            assert(valid_first_scalar(suffix));
                            assert(length_of_first_scalar(suffix) == 3);
                            partial_valid_utf8_extend(bytes@, i as int);
                        }
                        i = i + 3;
                    } else {
                        proof {
                            assert(!valid_first_scalar(suffix));
                            partial_valid_partial_invalid_utf8(bytes@, i as int);
                        }
                        return false;
                    }
                } else {
                    proof {
                        assert(suffix[0] == b0 && suffix[1] == b1 && suffix[2] == b2);
                        assert(!valid_first_scalar(suffix));
                        partial_valid_partial_invalid_utf8(bytes@, i as int);
                    }
                    return false;
                }
            } else {
                proof {
                    assert(suffix[0] == b0);
                    if suffix.len() >= 2 {
                        assert(suffix[1] == bytes@[i + 1]);
                    }
                    assert(suffix.len() < 3);
                    assert(!valid_first_scalar(suffix));
                    partial_valid_partial_invalid_utf8(bytes@, i as int);
                }
                return false;
            }
        } else if 0xf0 <= b0 && b0 <= 0xf7 {
            if n - i >= 4 {
                let b1 = bytes[i + 1];
                let b2 = bytes[i + 2];
                let b3 = bytes[i + 3];
                if 0x80 <= b1 && b1 <= 0xbf && 0x80 <= b2 && b2 <= 0xbf && 0x80 <= b3 && b3
                    <= 0xbf {
                    let cp: u32 = (((b0 & 0x07) as u32) << 18) | (((b1 & 0x3f) as u32) << 12) | (((
                    b2 & 0x3f) as u32) << 6) | ((b3 & 0x3f) as u32);
                    proof {
                        assert(suffix[0] == b0 && suffix[1] == b1 && suffix[2] == b2 && suffix[3]
                            == b3);
                        assert(cp == codepoint_width_4(b0, b1, b2, b3));
                    }
                    if 0x10000 <= cp && cp <= 0x10ffff {
                        proof {
                            assert(valid_first_scalar(suffix));
                            assert(length_of_first_scalar(suffix) == 4);
                            partial_valid_utf8_extend(bytes@, i as int);
                        }
                        i = i + 4;
                    } else {
                        proof {
                            assert(!valid_first_scalar(suffix));
                            partial_valid_partial_invalid_utf8(bytes@, i as int);
                        }
                        return false;
                    }
                } else {
                    proof {
                        assert(suffix[0] == b0 && suffix[1] == b1 && suffix[2] == b2 && suffix[3]
                            == b3);
                        assert(!valid_first_scalar(suffix));
                        partial_valid_partial_invalid_utf8(bytes@, i as int);
                    }
                    return false;
                }
            } else {
                proof {
                    assert(suffix[0] == b0);
                    if suffix.len() >= 2 {
                        assert(suffix[1] == bytes@[i + 1]);
                    }
                    if suffix.len() >= 3 {
                        assert(suffix[2] == bytes@[i + 2]);
                    }
                    assert(suffix.len() < 4);
                    assert(!valid_first_scalar(suffix));
                    partial_valid_partial_invalid_utf8(bytes@, i as int);
                }
                return false;
            }
        } else {
            proof {
                assert(suffix[0] == b0);
                assert(!valid_first_scalar(suffix));
                partial_valid_partial_invalid_utf8(bytes@, i as int);
            }
            return false;
        }
    }
    proof {
        assert(bytes@.subrange(0, bytes@.len() as int) =~= bytes@);
    }
    true
}

/// Relies on `core::str::from_utf8`: on bytes that are a well-formed UTF-8
/// encoding it returns the string slice backed by exactly those bytes.
#[verifier::external_body]
fn bytes_as_str(bytes: &[u8]) -> (r: &str)
    requires
        valid_utf8(bytes@),
    ensures
        r.spec_bytes() == bytes@,
{
    match core::str::from_utf8(bytes) {
        Ok(s) => s,
        Err(_) => "",
    }
}

/// Decodes `bytes` as UTF-8 text; returns the decoded characters exactly
/// when the bytes are a well-formed encoding, and nothing otherwise.
pub fn decode_text(bytes: &[u8]) -> (r: Option<String>)
    ensures
        r is Some <==> valid_utf8(bytes@),
        r matches Some(s) ==> s@ == decode_utf8(bytes@),
{
    if check_utf8(bytes) {
        let s = bytes_as_str(bytes);
        proof {
            encode_utf8_decode_utf8(s@);
        }
        Some(s.to_owned())
    } else {
        None
    }
}

} // verus!
