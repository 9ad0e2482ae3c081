//! The sRGB transfer function as a 256-entry fixed-point lookup table.
//!
//! `decode` maps an 8-bit sRGB channel value to linear light: for
//! `x = byte / 255`, the transfer function is `x / 12.92` when
//! `x <= 0.04045` and `((x + 0.055) / 1.055) ^ 2.4` otherwise.  The table
//! holds that curve scaled by [`FP_ONE`] and rounded to nearest; it is built
//! once and all decoding goes through it.  `encode` inverts the table by
//! nearest-value search, so decoding and encoding round-trip exactly.

use vstd::prelude::*;

use crate::pixel::{FP_ONE, Pixel, in_unit};

verus! {

/// The sRGB decode lookup table: 256 strictly increasing fixed-point values
/// from 0 to `FP_ONE`.
pub struct Table {
    vals: Vec<i64>,
}

/// Absolute value of a mathematical integer.
pub open spec fn abs_i(x: int) -> int {
    if x < 0 {
        -x
    } else {
        x
    }
}

/// The index, lowest on ties, whose table value among the first `n` lies
/// nearest to `v`: the enumeration order of the nearest-value search.
pub open spec fn best_near(t: Seq<i64>, v: int, n: int) -> int
    decreases n,
{
    if n <= 1 {
        0
    } else {
        let b = best_near(t, v, n - 1);
        if abs_i(t[n - 1] - v) < abs_i(t[b] - v) {
            n - 1
        } else {
            b
        }
    }
}

impl Table {
    /// The table entries as a sequence.
    pub closed spec fn vals_seq(self) -> Seq<i64> {
        self.vals@
    }

    /// Well-formedness: 256 strictly increasing entries spanning 0..FP_ONE.
    pub open spec fn wf(self) -> bool {
        &&& self.vals_seq().len() == 256
        &&& forall|i: int, j: int|
            0 <= i < j < 256 ==> self.vals_seq()[i] < self.vals_seq()[j]
        &&& forall|i: int| 0 <= i < 256 ==> 0 <= #[trigger] self.vals_seq()[i] <= FP_ONE
        &&& self.vals_seq()[0] == 0
        &&& self.vals_seq()[255] == FP_ONE
    }

    /// The linear-light value of the sRGB byte `x`.
    pub open spec fn decode_spec(self, x: u8) -> i64 {
        self.vals_seq()[x as int]
    }

    /// The sRGB byte whose linear-light value lies nearest to `v`, lowest on
    /// ties.
    pub open spec fn encode_spec(self, v: i64) -> int {
        best_near(self.vals_seq(), v as int, 256)
    }

    /// Builds the decode table, holding exactly the sRGB transfer curve:
    /// entry `i` is [`srgb_val`]`(i)`.
    pub fn generate() -> (t: Table)
        ensures
            t.wf(),
            forall|i: int| 0 <= i < 256 ==> #[trigger] t.vals_seq()[i] == srgb_val(i),
    {
        let mut vals: Vec<i64> = Vec::new();
        let mut i: usize = 0;
        while i < 256
            invariant
                0 <= i <= 256,
                vals@.len() == i,
                forall|k: int| 0 <= k < i ==> #[trigger] vals@[k] == srgb_val(k),
            decreases 256 - i,
        {
            let v = curve_at(i);
            vals.push(v);
            i = i + 1;
        }
        proof {
            lemma_srgb_val_increasing();
            assert(srgb_val(0) == 0);
            assert(srgb_val(255) == FP_ONE);
            assert forall|a: int, b: int| 0 <= a < b < 256 implies vals@[a] < vals@[b] by {
                lemma_srgb_val_lt(a, b);
            }
            assert forall|a: int| 0 <= a < 256 implies 0 <= #[trigger] vals@[a] <= FP_ONE by {
                if a > 0 {
                    lemma_srgb_val_lt(0, a);
                }
                if a < 255 {
                    lemma_srgb_val_lt(a, 255);
                }
            }
        }
        Table { vals }
    }

    /// Looks up the linear-light value of one sRGB byte.
    pub fn decode(&self, x: u8) -> (v: i64)
        requires
            self.wf(),
        ensures
            v == self.decode_spec(x),
            0 <= v <= FP_ONE,
    {
        self.vals[x as usize]
    }

    /// Decodes an sRGB triple into a linear-light pixel.
    pub fn decode_px(&self, r: u8, g: u8, b: u8) -> (p: Pixel)
        requires
            self.wf(),
        ensures
            p.r == self.decode_spec(r),
            p.g == self.decode_spec(g),
            p.b == self.decode_spec(b),
            in_unit(p),
    {
        Pixel { r: self.decode(r), g: self.decode(g), b: self.decode(b) }
    }

    /// Finds the sRGB byte whose linear-light value lies nearest to `v`
    /// (lowest byte on ties).
    pub fn encode(&self, v: i64) -> (x: u8)
        requires
            self.wf(),
            -4 * FP_ONE <= v <= 4 * FP_ONE,
        ensures
            x as int == self.encode_spec(v),
    {
        let ghost t = self.vals_seq();
        let mut best: usize = 0;
        let mut bd: i64 = abs_diff(self.vals[0], v);
        let mut i: usize = 1;
        while i < 256
            invariant
                self.wf(),
                -4 * FP_ONE <= v <= 4 * FP_ONE,
                t == self.vals_seq(),
                1 <= i <= 256,
                best == best_near(t, v as int, i as int),
                0 <= best < i,
                bd == abs_i(t[best as int] - v),
            decreases 256 - i,
        {
            let d = abs_diff(self.vals[i], v);
            if d < bd {
                best = i;
                bd = d;
            }
            i = i + 1;
        }
        best as u8
    }
}

/// Absolute difference of two small fixed-point values.
fn abs_diff(a: i64, v: i64) -> (d: i64)
    requires
        -8 * FP_ONE <= a - v <= 8 * FP_ONE,
    ensures
        d == abs_i(a - v),
{
    if a >= v {
        a - v
    } else {
        v - a
    }
}

/// The index found by the nearest-value search is in range, minimizes the
/// distance to `v`, and is the lowest index attaining that distance.
pub proof fn lemma_best_near_props(t: Seq<i64>, v: int, n: int)
    requires
        1 <= n <= t.len(),
    ensures
        0 <= best_near(t, v, n) < n,
        forall|j: int|
            0 <= j < n ==> abs_i(t[best_near(t, v, n)] - v) <= abs_i(#[trigger] t[j] - v),
        forall|j: int|
            0 <= j < best_near(t, v, n) ==> abs_i(#[trigger] t[j] - v) > abs_i(
                t[best_near(t, v, n)] - v,
            ),
    decreases n,
{
    if n > 1 {
        lemma_best_near_props(t, v, n - 1);
    }
}

/// Gamma round trip: encoding the decoded value of any sRGB byte returns
/// that byte exactly.
pub proof fn lemma_gamma_round_trip(t: Table, x: u8)
    requires
        t.wf(),
    ensures
        t.encode_spec(t.decode_spec(x)) == x as int,
{
    let s = t.vals_seq();
    let v = t.decode_spec(x) as int;
    let b = best_near(s, v, 256);
    lemma_best_near_props(s, v, 256);
    assert(abs_i(s[b] - v) <= abs_i(s[x as int] - v));
    assert(s[b] == s[x as int]);
    if b < x as int {
        assert(s[b] < s[x as int]);
    } else if b > x as int {
        assert(s[x as int] < s[b]);
    }
}

/// Consecutive entries of the sRGB curve strictly increase.
#[verifier::rlimit(100)]
pub proof fn lemma_srgb_val_increasing()
    ensures
        forall|i: int| 0 <= i < 255 ==> #[trigger] srgb_val(i) < srgb_val(i + 1),
{
}

/// The sRGB curve strictly increases between any two bytes.
pub proof fn lemma_srgb_val_lt(i: int, j: int)
    requires
        0 <= i < j < 256,
    ensures
        srgb_val(i) < srgb_val(j),
    decreases j - i,
{
    lemma_srgb_val_increasing();
    if j > i + 1 {
        lemma_srgb_val_lt(i, j - 1);
    }
}

/// The sRGB transfer curve at byte `i`, scaled by `FP_ONE` and rounded to
/// nearest: for `x = i / 255`, the curve is `x / 12.92` when
/// `x <= 0.04045` and `((x + 0.055) / 1.055) ^ 2.4` otherwise.
pub open spec fn srgb_val(i: int) -> i64 {
    if i < 128 {
        if i < 64 {
            if i < 32 {
                if i < 16 {
                    if i < 8 {
                        if i < 4 {
                            if i < 2 {
                                if i < 1 {
                                    0
                                } else {
                                    20
                                }
                            } else {
                                if i < 3 {
                                    40
                                } else {
                                    60
                                }
                            }
                        } else {
                            if i < 6 {
                                if i < 5 {
                                    80
                                } else {
                                    99
                                }
                            } else {
                                if i < 7 {
                                    119
                                } else {
                                    139
                                }
                            }
                        }
                    } else {
                        if i < 12 {
                            if i < 10 {
                                if i < 9 {
                                    159
                                } else {
                                    179
                                }
                            } else {
                                if i < 11 {
                                    199
                                } else {
                                    219
                                }
                            }
                        } else {
                            if i < 14 {
                                if i < 13 {
                                    241
                                } else {
                                    264
                                }
                            } else {
                                if i < 15 {
                                    288
                                } else {
                                    313
                                }
                            }
                        }
                    }
                } else {
                    if i < 24 {
                        if i < 20 {
                            if i < 18 {
                                if i < 17 {
                                    340
                                } else {
                                    367
                                }
                            } else {
                                if i < 19 {
                                    396
                                } else {
                                    427
                                }
                            }
                        } else {
                            if i < 22 {
                                if i < 21 {
                                    458
                                } else {
                                    491
                                }
                            } else {
                                if i < 23 {
                                    526
                                } else {
                                    562
                                }
                            }
                        }
                    } else {
                        if i < 28 {
                            if i < 26 {
                                if i < 25 {
                                    599
                                } else {
                                    637
                                }
                            } else {
                                if i < 27 {
                                    677
                                } else {
                                    718
                                }
                            }
                        } else {
                            if i < 30 {
                                if i < 29 {
                                    761
                                } else {
                                    805
                                }
                            } else {
                                if i < 31 {
                                    851
                                } else {
                                    898
                                }
                            }
                        }
                    }
                }
            } else {
                if i < 48 {
                    if i < 40 {
                        if i < 36 {
                            if i < 34 {
                                if i < 33 {
                                    947
                                } else {
                                    997
                                }
                            } else {
                                if i < 35 {
                                    1048
                                } else {
                                    1101
                                }
                            }
                        } else {
                            if i < 38 {
                                if i < 37 {
                                    1156
                                } else {
                                    1212
                                }
                            } else {
                                if i < 39 {
                                    1270
                                } else {
                                    1330
                                }
                            }
                        }
                    } else {
                        if i < 44 {
                            if i < 42 {
                                if i < 41 {
                                    1391
                                } else {
                                    1453
                                }
                            } else {
                                if i < 43 {
                                    1517
                                } else {
                                    1583
                                }
                            }
                        } else {
                            if i < 46 {
                                if i < 45 {
                                    1651
                                } else {
                                    1720
                                }
                            } else {
                                if i < 47 {
                                    1791
                                } else {
                                    1863
                                }
                            }
                        }
                    }
                } else {
                    if i < 56 {
                        if i < 52 {
                            if i < 50 {
                                if i < 49 {
                                    1937
                                } else {
                                    2013
                                }
                            } else {
                                if i < 51 {
                                    2090
                                } else {
                                    2170
                                }
                            }
                        } else {
                            if i < 54 {
                                if i < 53 {
                                    2250
                                } else {
                                    2333
                                }
                            } else {
                                if i < 55 {
                                    2418
                                } else {
                                    2504
                                }
                            }
                        }
                    } else {
                        if i < 60 {
                            if i < 58 {
                                if i < 57 {
                                    2592
                                } else {
                                    2681
                                }
                            } else {
                                if i < 59 {
                                    2773
                                } else {
                                    2866
                                }
                            }
                        } else {
                            if i < 62 {
                                if i < 61 {
                                    2961
                                } else {
                                    3058
                                }
                            } else {
                                if i < 63 {
                                    3157
                                } else {
                                    3258
                                }
                            }
                        }
                    }
                }
            }
        } else {
            if i < 96 {
                if i < 80 {
                    if i < 72 {
                        if i < 68 {
                            if i < 66 {
                                if i < 65 {
                                    3360
                                } else {
                                    3464
                                }
                            } else {
                                if i < 67 {
                                    3570
                                } else {
                                    3678
                                }
                            }
                        } else {
                            if i < 70 {
                                if i < 69 {
                                    3788
                                } else {
                                    3900
                                }
                            } else {
                                if i < 71 {
                                    4014
                                } else {
                                    4129
                                }
                            }
                        }
                    } else {
                        if i < 76 {
                            if i < 74 {
                                if i < 73 {
                                    4247
                                } else {
                                    4366
                                }
                            } else {
                                if i < 75 {
                                    4488
                                } else {
                                    4611
                                }
                            }
                        } else {
                            if i < 78 {
                                if i < 77 {
                                    4736
                                } else {
                                    4864
                                }
                            } else {
                                if i < 79 {
                                    4993
                                } else {
                                    5124
                                }
                            }
                        }
                    }
                } else {
                    if i < 88 {
                        if i < 84 {
                            if i < 82 {
                                if i < 81 {
                                    5257
                                } else {
                                    5392
                                }
                            } else {
                                if i < 83 {
                                    5530
                                } else {
                                    5669
                                }
                            }
                        } else {
                            if i < 86 {
                                if i < 85 {
                                    5810
                                } else {
                                    5953
                                }
                            } else {
                                if i < 87 {
                                    6099
                                } else {
                                    6246
                                }
                            }
                        }
                    } else {
                        if i < 92 {
                            if i < 90 {
                                if i < 89 {
                                    6395
                                } else {
                                    6547
                                }
                            } else {
                                if i < 91 {
                                    6701
                                } else {
                                    6856
                                }
                            }
                        } else {
                            if i < 94 {
                                if i < 93 {
                                    7014
                                } else {
                                    7174
                                }
                            } else {
                                if i < 95 {
                                    7336
                                } else {
                                    7500
                                }
                            }
                        }
                    }
                }
            } else {
                if i < 112 {
                    if i < 104 {
                        if i < 100 {
                            if i < 98 {
                                if i < 97 {
                                    7666
                                } else {
                                    7834
                                }
                            } else {
                                if i < 99 {
                                    8004
                                } else {
                                    8177
                                }
                            }
                        } else {
                            if i < 102 {
                                if i < 101 {
                                    8352
                                } else {
                                    8529
                                }
                            } else {
                                if i < 103 {
                                    8708
                                } else {
                                    8889
                                }
                            }
                        }
                    } else {
                        if i < 108 {
                            if i < 106 {
                                if i < 105 {
                                    9072
                                } else {
                                    9258
                                }
                            } else {
                                if i < 107 {
                                    9446
                                } else {
                                    9636
                                }
                            }
                        } else {
                            if i < 110 {
                                if i < 109 {
                                    9828
                                } else {
                                    10022
                                }
                            } else {
                                if i < 111 {
                                    10219
                                } else {
                                    10418
                                }
                            }
                        }
                    }
                } else {
                    if i < 120 {
                        if i < 116 {
                            if i < 114 {
                                if i < 113 {
                                    10619
                                } else {
                                    10822
                                }
                            } else {
                                if i < 115 {
                                    11028
                                } else {
                                    11236
                                }
                            }
                        } else {
                            if i < 118 {
                                if i < 117 {
                                    11446
                                } else {
                                    11658
                                }
                            } else {
                                if i < 119 {
                                    11873
                                } else {
                                    12090
                                }
                            }
                        }
                    } else {
                        if i < 124 {
                            if i < 122 {
                                if i < 121 {
                                    12309
                                } else {
                                    12531
                                }
                            } else {
                                if i < 123 {
                                    12754
                                } else {
                                    12981
                                }
                            }
                        } else {
                            if i < 126 {
                                if i < 125 {
                                    13209
                                } else {
                                    13440
                                }
                            } else {
                                if i < 127 {
                                    13673
                                } else {
                                    13909
                                }
                            }
                        }
                    }
                }
            }
        }
    } else {
        if i < 192 {
            if i < 160 {
                if i < 144 {
                    if i < 136 {
                        if i < 132 {
                            if i < 130 {
                                if i < 129 {
                                    14147
                                } else {
                                    14387
                                }
                            } else {
                                if i < 131 {
                                    14629
                                } else {
                                    14874
                                }
                            }
                        } else {
                            if i < 134 {
                                if i < 133 {
                                    15122
                                } else {
                                    15372
                                }
                            } else {
                                if i < 135 {
                                    15624
                                } else {
                                    15878
                                }
                            }
                        }
                    } else {
                        if i < 140 {
                            if i < 138 {
                                if i < 137 {
                                    16135
                                } else {
                                    16394
                                }
                            } else {
                                if i < 139 {
                                    16656
                                } else {
                                    16920
                                }
                            }
                        } else {
                            if i < 142 {
                                if i < 141 {
                                    17187
                                } else {
                                    17456
                                }
                            } else {
                                if i < 143 {
                                    17727
                                } else {
                                    18001
                                }
                            }
                        }
                    }
                } else {
                    if i < 152 {
                        if i < 148 {
                            if i < 146 {
                                if i < 145 {
                                    18278
                                } else {
                                    18556
                                }
                            } else {
                                if i < 147 {
                                    18838
                                } else {
                                    19121
                                }
                            }
                        } else {
                            if i < 150 {
                                if i < 149 {
                                    19408
                                } else {
                                    19696
                                }
                            } else {
                                if i < 151 {
                                    19988
                                } else {
                                    20281
                                }
                            }
                        }
                    } else {
                        if i < 156 {
                            if i < 154 {
                                if i < 153 {
                                    20578
                                } else {
                                    20876
                                }
                            } else {
                                if i < 155 {
                                    21178
                                } else {
                                    21481
                                }
                            }
                        } else {
                            if i < 158 {
                                if i < 157 {
                                    21788
                                } else {
                                    22096
                                }
                            } else {
                                if i < 159 {
                                    22408
                                } else {
                                    22722
                                }
                            }
                        }
                    }
                }
            } else {
                if i < 176 {
                    if i < 168 {
                        if i < 164 {
                            if i < 162 {
                                if i < 161 {
                                    23038
                                } else {
                                    23357
                                }
                            } else {
                                if i < 163 {
                                    23679
                                } else {
                                    24003
                                }
                            }
                        } else {
                            if i < 166 {
                                if i < 165 {
                                    24329
                                } else {
                                    24659
                                }
                            } else {
                                if i < 167 {
                                    24991
                                } else {
                                    25325
                                }
                            }
                        }
                    } else {
                        if i < 172 {
                            if i < 170 {
                                if i < 169 {
                                    25662
                                } else {
                                    26002
                                }
                            } else {
                                if i < 171 {
                                    26344
                                } else {
                                    26689
                                }
                            }
                        } else {
                            if i < 174 {
                                if i < 173 {
                                    27036
                                } else {
                                    27387
                                }
                            } else {
                                if i < 175 {
                                    27739
                                } else {
                                    28095
                                }
                            }
                        }
                    }
                } else {
                    if i < 184 {
                        if i < 180 {
                            if i < 178 {
                                if i < 177 {
                                    28453
                                } else {
                                    28813
                                }
                            } else {
                                if i < 179 {
                                    29177
                                } else {
                                    29543
                                }
                            }
                        } else {
                            if i < 182 {
                                if i < 181 {
                                    29911
                                } else {
                                    30283
                                }
                            } else {
                                if i < 183 {
                                    30657
                                } else {
                                    31033
                                }
                            }
                        }
                    } else {
                        if i < 188 {
                            if i < 186 {
                                if i < 185 {
                                    31413
                                } else {
                                    31795
                                }
                            } else {
                                if i < 187 {
                                    32180
                                } else {
                                    32567
                                }
                            }
                        } else {
                            if i < 190 {
                                if i < 189 {
                                    32957
                                } else {
                                    33350
                                }
                            } else {
                                if i < 191 {
                                    33746
                                } else {
                                    34144
                                }
                            }
                        }
                    }
                }
            }
        } else {
            if i < 224 {
                if i < 208 {
                    if i < 200 {
                        if i < 196 {
                            if i < 194 {
                                if i < 193 {
                                    34545
                                } else {
                                    34949
                                }
                            } else {
                                if i < 195 {
                                    35355
                                } else {
                                    35765
                                }
                            }
                        } else {
                            if i < 198 {
                                if i < 197 {
                                    36177
                                } else {
                                    36591
                                }
                            } else {
                                if i < 199 {
                                    37009
                                } else {
                                    37429
                                }
                            }
                        }
                    } else {
                        if i < 204 {
                            if i < 202 {
                                if i < 201 {
                                    37852
                                } else {
                                    38278
                                }
                            } else {
                                if i < 203 {
                                    38707
                                } else {
                                    39138
                                }
                            }
                        } else {
                            if i < 206 {
                                if i < 205 {
                                    39572
                                } else {
                                    40009
                                }
                            } else {
                                if i < 207 {
                                    40449
                                } else {
                                    40892
                                }
                            }
                        }
                    }
                } else {
                    if i < 216 {
                        if i < 212 {
                            if i < 210 {
                                if i < 209 {
                                    41337
                                } else {
                                    41786
                                }
                            } else {
                                if i < 211 {
                                    42237
                                } else {
                                    42691
                                }
                            }
                        } else {
                            if i < 214 {
                                if i < 213 {
                                    43147
                                } else {
                                    43607
                                }
                            } else {
                                if i < 215 {
                                    44069
                                } else {
                                    44534
                                }
                            }
                        }
                    } else {
                        if i < 220 {
                            if i < 218 {
                                if i < 217 {
                                    45003
                                } else {
                                    45474
                                }
                            } else {
                                if i < 219 {
                                    45947
                                } else {
                                    46424
                                }
                            }
                        } else {
                            if i < 222 {
                                if i < 221 {
                                    46904
                                } else {
                                    47386
                                }
                            } else {
                                if i < 223 {
                                    47871
                                } else {
                                    48360
                                }
                            }
                        }
                    }
                }
            } else {
                if i < 240 {
                    if i < 232 {
                        if i < 228 {
                            if i < 226 {
                                if i < 225 {
                                    48851
                                } else {
                                    49345
                                }
                            } else {
                                if i < 227 {
                                    49842
                                } else {
                                    50342
                                }
                            }
                        } else {
                            if i < 230 {
                                if i < 229 {
                                    50844
                                } else {
                                    51350
                                }
                            } else {
                                if i < 231 {
                                    51859
                                } else {
                                    52370
                                }
                            }
                        }
                    } else {
                        if i < 236 {
                            if i < 234 {
                                if i < 233 {
                                    52884
                                } else {
                                    53402
                                }
                            } else {
                                if i < 235 {
                                    53922
                                } else {
                                    54445
                                }
                            }
                        } else {
                            if i < 238 {
                                if i < 237 {
                                    54972
                                } else {
                                    55501
                                }
                            } else {
                                if i < 239 {
                                    56033
                                } else {
                                    56568
                                }
                            }
                        }
                    }
                } else {
                    if i < 248 {
                        if i < 244 {
                            if i < 242 {
                                if i < 241 {
                                    57106
                                } else {
                                    57647
                                }
                            } else {
                                if i < 243 {
                                    58191
                                } else {
                                    58738
                                }
                            }
                        } else {
                            if i < 246 {
                                if i < 245 {
                                    59288
                                } else {
                                    59841
                                }
                            } else {
                                if i < 247 {
                                    60397
                                } else {
                                    60956
                                }
                            }
                        }
                    } else {
                        if i < 252 {
                            if i < 250 {
                                if i < 249 {
                                    61518
                                } else {
                                    62083
                                }
                            } else {
                                if i < 251 {
                                    62651
                                } else {
                                    63222
                                }
                            }
                        } else {
                            if i < 254 {
                                if i < 253 {
                                    63796
                                } else {
                                    64373
                                }
                            } else {
                                if i < 255 {
                                    64953
                                } else {
                                    65536
                                }
                            }
                        }
                    }
                }
            }
        }
    }
}

/// Reads one entry of the sRGB transfer curve.
fn curve_at(i: usize) -> (v: i64)
    requires
        i < 256,
    ensures
        v == srgb_val(i as int),
{
    if i < 128 {
        if i < 64 {
            if i < 32 {
                if i < 16 {
                    if i < 8 {
                        if i < 4 {
                            if i < 2 {
                                if i < 1 {
                                    0
                                } else {
                                    20
                                }
                            } else {
                                if i < 3 {
                                    40
                                } else {
                                    60
                                }
                            }
                        } else {
                            if i < 6 {
                                if i < 5 {
                                    80
                                } else {
                                    99
                                }
                            } else {
                                if i < 7 {
                                    119
                                } else {
                                    139
                                }
                            }
                        }
                    } else {
                        if i < 12 {
                            if i < 10 {
                                if i < 9 {
                                    159
                                } else {
                                    179
                                }
                            } else {
                                if i < 11 {
                                    199
                                } else {
                                    219
                                }
                            }
                        } else {
                            if i < 14 {
                                if i < 13 {
                                    241
                                } else {
                                    264
                                }
                            } else {
                                if i < 15 {
                                    288
                                } else {
                                    313
                                }
                            }
                        }
                    }
                } else {
                    if i < 24 {
                        if i < 20 {
                            if i < 18 {
                                if i < 17 {
                                    340
                                } else {
                                    367
                                }
                            } else {
                                if i < 19 {
                                    396
                                } else {
                                    427
                                }
                            }
                        } else {
                            if i < 22 {
                                if i < 21 {
                                    458
                                } else {
                                    491
                                }
                            } else {
                                if i < 23 {
                                    526
                                } else {
                                    562
                                }
                            }
                        }
                    } else {
                        if i < 28 {
                            if i < 26 {
                                if i < 25 {
                                    599
                                } else {
                                    637
                                }
                            } else {
                                if i < 27 {
                                    677
                                } else {
                                    718
                                }
                            }
                        } else {
                            if i < 30 {
                                if i < 29 {
                                    761
                                } else {
                                    805
                                }
                            } else {
                                if i < 31 {
                                    851
                                } else {
                                    898
                                }
                            }
                        }
                    }
                }
            } else {
                if i < 48 {
                    if i < 40 {
                        if i < 36 {
                            if i < 34 {
                                if i < 33 {
                                    947
                                } else {
                                    997
                                }
                            } else {
                                if i < 35 {
                                    1048
                                } else {
                                    1101
                                }
                            }
                        } else {
                            if i < 38 {
                                if i < 37 {
                                    1156
                                } else {
                                    1212
                                }
                            } else {
                                if i < 39 {
                                    1270
                                } else {
                                    1330
                                }
                            }
                        }
                    } else {
                        if i < 44 {
                            if i < 42 {
                                if i < 41 {
                                    1391
                                } else {
                                    1453
                                }
                            } else {
                                if i < 43 {
                                    1517
                                } else {
                                    1583
                                }
                            }
                        } else {
                            if i < 46 {
                                if i < 45 {
                                    1651
                                } else {
                                    1720
                                }
                            } else {
                                if i < 47 {
                                    1791
                                } else {
                                    1863
                                }
                            }
                        }
                    }
                } else {
                    if i < 56 {
                        if i < 52 {
                            if i < 50 {
                                if i < 49 {
                                    1937
                                } else {
                                    2013
                                }
                            } else {
                                if i < 51 {
                                    2090
                                } else {
                                    2170
                                }
                            }
                        } else {
                            if i < 54 {
                                if i < 53 {
                                    2250
                                } else {
                                    2333
                                }
                            } else {
                                if i < 55 {
                                    2418
                                } else {
                                    2504
                                }
                            }
                        }
                    } else {
                        if i < 60 {
                            if i < 58 {
                                if i < 57 {
                                    2592
                                } else {
                                    2681
                                }
                            } else {
                                if i < 59 {
                                    2773
                                } else {
                                    2866
                                }
                            }
                        } else {
                            if i < 62 {
                                if i < 61 {
                                    2961
                                } else {
                                    3058
                                }
                            } else {
                                if i < 63 {
                                    3157
                                } else {
                                    3258
                                }
                            }
                        }
                    }
                }
            }
        } else {
            if i < 96 {
                if i < 80 {
                    if i < 72 {
                        if i < 68 {
                            if i < 66 {
                                if i < 65 {
                                    3360
                                } else {
                                    3464
                                }
                            } else {
                                if i < 67 {
                                    3570
                                } else {
                                    3678
                                }
                            }
                        } else {
                            if i < 70 {
                                if i < 69 {
                                    3788
                                } else {
                                    3900
                                }
                            } else {
                                if i < 71 {
                                    4014
                                } else {
                                    4129
                                }
                            }
                        }
                    } else {
                        if i < 76 {
                            if i < 74 {
                                if i < 73 {
                                    4247
                                } else {
                                    4366
                                }
                            } else {
                                if i < 75 {
                                    4488
                                } else {
                                    4611
                                }
                            }
                        } else {
                            if i < 78 {
                                if i < 77 {
                                    4736
                                } else {
                                    4864
                                }
                            } else {
                                if i < 79 {
                                    4993
                                } else {
                                    5124
                                }
                            }
                        }
                    }
                } else {
                    if i < 88 {
                        if i < 84 {
                            if i < 82 {
                                if i < 81 {
                                    5257
                                } else {
                                    5392
                                }
                            } else {
                                if i < 83 {
                                    5530
                                } else {
                                    5669
                                }
                            }
                        } else {
                            if i < 86 {
                                if i < 85 {
                                    5810
                                } else {
                                    5953
                                }
                            } else {
                                if i < 87 {
                                    6099
                                } else {
                                    6246
                                }
                            }
                        }
                    } else {
                        if i < 92 {
                            if i < 90 {
                                if i < 89 {
                                    6395
                                } else {
                                    6547
                                }
                            } else {
                                if i < 91 {
                                    6701
                                } else {
                                    6856
                                }
                            }
                        } else {
                            if i < 94 {
                                if i < 93 {
                                    7014
                                } else {
                                    7174
                                }
                            } else {
                                if i < 95 {
                                    7336
                                } else {
                                    7500
                                }
                            }
                        }
                    }
                }
            } else {
                if i < 112 {
                    if i < 104 {
                        if i < 100 {
                            if i < 98 {
                                if i < 97 {
                                    7666
                                } else {
                                    7834
                                }
                            } else {
                                if i < 99 {
                                    8004
                                } else {
                                    8177
                                }
                            }
                        } else {
                            if i < 102 {
                                if i < 101 {
                                    8352
                                } else {
                                    8529
                                }
                            } else {
                                if i < 103 {
                                    8708
                                } else {
                                    8889
                                }
                            }
                        }
                    } else {
                        if i < 108 {
                            if i < 106 {
                                if i < 105 {
                                    9072
                                } else {
                                    9258
                                }
                            } else {
                                if i < 107 {
                                    9446
                                } else {
                                    9636
                                }
                            }
                        } else {
                            if i < 110 {
                                if i < 109 {
                                    9828
                                } else {
                                    10022
                                }
                            } else {
                                if i < 111 {
                                    10219
                                } else {
                                    10418
                                }
                            }
                        }
                    }
                } else {
                    if i < 120 {
                        if i < 116 {
                            if i < 114 {
                                if i < 113 {
                                    10619
                                } else {
                                    10822
                                }
                            } else {
                                if i < 115 {
                                    11028
                                } else {
                                    11236
                                }
                            }
                        } else {
                            if i < 118 {
                                if i < 117 {
                                    11446
                                } else {
                                    11658
                                }
                            } else {
                                if i < 119 {
                                    11873
                                } else {
                                    12090
                                }
                            }
                        }
                    } else {
                        if i < 124 {
                            if i < 122 {
                                if i < 121 {
                                    12309
                                } else {
                                    12531
                                }
                            } else {
                                if i < 123 {
                                    12754
                                } else {
                                    12981
                                }
                            }
                        } else {
                            if i < 126 {
                                if i < 125 {
                                    13209
                                } else {
                                    13440
                                }
                            } else {
                                if i < 127 {
                                    13673
                                } else {
                                    13909
                                }
                            }
                        }
                    }
                }
            }
        }
    } else {
        if i < 192 {
            if i < 160 {
                if i < 144 {
                    if i < 136 {
                        if i < 132 {
                            if i < 130 {
                                if i < 129 {
                                    14147
                                } else {
                                    14387
                                }
                            } else {
                                if i < 131 {
                                    14629
                                } else {
                                    14874
                                }
                            }
                        } else {
                            if i < 134 {
                                if i < 133 {
                                    15122
                                } else {
                                    15372
                                }
                            } else {
                                if i < 135 {
                                    15624
                                } else {
                                    15878
                                }
                            }
                        }
                    } else {
                        if i < 140 {
                            if i < 138 {
                                if i < 137 {
                                    16135
                                } else {
                                    16394
                                }
                            } else {
                                if i < 139 {
                                    16656
                                } else {
                                    16920
                                }
                            }
                        } else {
                            if i < 142 {
                                if i < 141 {
                                    17187
                                } else {
                                    17456
                                }
                            } else {
                                if i < 143 {
                                    17727
                                } else {
                                    18001
                                }
                            }
                        }
                    }
                } else {
                    if i < 152 {
                        if i < 148 {
                            if i < 146 {
                                if i < 145 {
                                    18278
                                } else {
                                    18556
                                }
                            } else {
                                if i < 147 {
                                    18838
                                } else {
                                    19121
                                }
                            }
                        } else {
                            if i < 150 {
                                if i < 149 {
                                    19408
                                } else {
                                    19696
                                }
                            } else {
                                if i < 151 {
                                    19988
                                } else {
                                    20281
                                }
                            }
                        }
                    } else {
                        if i < 156 {
                            if i < 154 {
                                if i < 153 {
                                    20578
                                } else {
                                    20876
                                }
                            } else {
                                if i < 155 {
                                    21178
                                } else {
                                    21481
                                }
                            }
                        } else {
                            if i < 158 {
                                if i < 157 {
                                    21788
                                } else {
                                    22096
                                }
                            } else {
                                if i < 159 {
                                    22408
                                } else {
                                    22722
                                }
                            }
                        }
                    }
                }
            } else {
                if i < 176 {
                    if i < 168 {
                        if i < 164 {
                            if i < 162 {
                                if i < 161 {
                                    23038
                                } else {
                                    23357
                                }
                            } else {
                                if i < 163 {
                                    23679
                                } else {
                                    24003
                                }
                            }
                        } else {
                            if i < 166 {
                                if i < 165 {
                                    24329
                                } else {
                                    24659
                                }
                            } else {
                                if i < 167 {
                                    24991
                                } else {
                                    25325
                                }
                            }
                        }
                    } else {
                        if i < 172 {
                            if i < 170 {
                                if i < 169 {
                                    25662
                                } else {
                                    26002
                                }
                            } else {
                                if i < 171 {
                                    26344
                                } else {
                                    26689
                                }
                            }
                        } else {
                            if i < 174 {
                                if i < 173 {
                                    27036
                                } else {
                                    27387
                                }
                            } else {
                                if i < 175 {
                                    27739
                                } else {
                                    28095
                                }
                            }
                        }
                    }
                } else {
                    if i < 184 {
                        if i < 180 {
                            if i < 178 {
                                if i < 177 {
                                    28453
                                } else {
                                    28813
                                }
                            } else {
                                if i < 179 {
                                    29177
                                } else {
                                    29543
                                }
                            }
                        } else {
                            if i < 182 {
                                if i < 181 {
                                    29911
                                } else {
                                    30283
                                }
                            } else {
                                if i < 183 {
                                    30657
                                } else {
                                    31033
                                }
                            }
                        }
                    } else {
                        if i < 188 {
                            if i < 186 {
                                if i < 185 {
                                    31413
                                } else {
                                    31795
                                }
                            } else {
                                if i < 187 {
                                    32180
                                } else {
                                    32567
                                }
                            }
                        } else {
                            if i < 190 {
                                if i < 189 {
                                    32957
                                } else {
                                    33350
                                }
                            } else {
                                if i < 191 {
                                    33746
                                } else {
                                    34144
                                }
                            }
                        }
                    }
                }
            }
        } else {
            if i < 224 {
                if i < 208 {
                    if i < 200 {
                        if i < 196 {
                            if i < 194 {
                                if i < 193 {
                                    34545
                                } else {
                                    34949
                                }
                            } else {
                                if i < 195 {
                                    35355
                                } else {
                                    35765
                                }
                            }
                        } else {
                            if i < 198 {
                                if i < 197 {
                                    36177
                                } else {
                                    36591
                                }
                            } else {
                                if i < 199 {
                                    37009
                                } else {
                                    37429
                                }
                            }
                        }
                    } else {
                        if i < 204 {
                            if i < 202 {
                                if i < 201 {
                                    37852
                                } else {
                                    38278
                                }
                            } else {
                                if i < 203 {
                                    38707
                                } else {
                                    39138
                                }
                            }
                        } else {
                            if i < 206 {
                                if i < 205 {
                                    39572
                                } else {
                                    40009
                                }
                            } else {
                                if i < 207 {
                                    40449
                                } else {
                                    40892
                                }
                            }
                        }
                    }
                } else {
                    if i < 216 {
                        if i < 212 {
                            if i < 210 {
                                if i < 209 {
                                    41337
                                } else {
                                    41786
                                }
                            } else {
                                if i < 211 {
                                    42237
                                } else {
                                    42691
                                }
                            }
                        } else {
                            if i < 214 {
                                if i < 213 {
                                    43147
                                } else {
                                    43607
                                }
                            } else {
                                if i < 215 {
                                    44069
                                } else {
                                    44534
                                }
                            }
                        }
                    } else {
                        if i < 220 {
                            if i < 218 {
                                if i < 217 {
                                    45003
                                } else {
                                    45474
                                }
                            } else {
                                if i < 219 {
                                    45947
                                } else {
                                    46424
                                }
                            }
                        } else {
                            if i < 222 {
                                if i < 221 {
                                    46904
                                } else {
                                    47386
                                }
                            } else {
                                if i < 223 {
                                    47871
                                } else {
                                    48360
                                }
                            }
                        }
                    }
                }
            } else {
                if i < 240 {
                    if i < 232 {
                        if i < 228 {
                            if i < 226 {
                                if i < 225 {
                                    48851
                                } else {
                                    49345
                                }
                            } else {
                                if i < 227 {
                                    49842
                                } else {
                                    50342
                                }
                            }
                        } else {
                            if i < 230 {
                                if i < 229 {
                                    50844
                                } else {
                                    51350
                                }
                            } else {
                                if i < 231 {
                                    51859
                                } else {
                                    52370
                                }
                            }
                        }
                    } else {
                        if i < 236 {
                            if i < 234 {
                                if i < 233 {
                                    52884
                                } else {
                                    53402
                                }
                            } else {
                                if i < 235 {
                                    53922
                                } else {
                                    54445
                                }
                            }
                        } else {
                            if i < 238 {
                                if i < 237 {
                                    54972
                                } else {
                                    55501
                                }
                            } else {
                                if i < 239 {
                                    56033
                                } else {
                                    56568
                                }
                            }
                        }
                    }
                } else {
                    if i < 248 {
                        if i < 244 {
                            if i < 242 {
                                if i < 241 {
                                    57106
                                } else {
                                    57647
                                }
                            } else {
                                if i < 243 {
                                    58191
                                } else {
                                    58738
                                }
                            }
                        } else {
                            if i < 246 {
                                if i < 245 {
                                    59288
                                } else {
                                    59841
                                }
                            } else {
                                if i < 247 {
                                    60397
                                } else {
                                    60956
                                }
                            }
                        }
                    } else {
                        if i < 252 {
                            if i < 250 {
                                if i < 249 {
                                    61518
                                } else {
                                    62083
                                }
                            } else {
                                if i < 251 {
                                    62651
                                } else {
                                    63222
                                }
                            }
                        } else {
                            if i < 254 {
                                if i < 253 {
                                    63796
                                } else {
                                    64373
                                }
                            } else {
                                if i < 255 {
                                    64953
                                } else {
                                    65536
                                }
                            }
                        }
                    }
                }
            }
        }
    }
}

} // verus!
