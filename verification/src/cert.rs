//! Products of field constants, as opaque terms, for certificates that the
//! bit-vector solver checks on constants.

use vstd::prelude::*;

use crate::gf::field_mul;

verus! {

/// The field product, as a term that other modules do not unfold.
pub closed spec fn cmul(a: u8, b: u8) -> u8 {
    field_mul(a, b)
}

/// [`cmul`] is the field product.
pub proof fn lemma_cmul(a: u8, b: u8)
    ensures
        cmul(a, b) == field_mul(a, b),
{
}

/// The certificates: each inverse below times its system is the identity.
pub proof fn lemma_five_certificates()
    by (bit_vector)
    ensures
        cmul(102u8, 1u8) ^ cmul(103u8, 1u8) == 1u8,
        cmul(102u8, 1u8) ^ cmul(103u8, 76u8) == 0u8,
        cmul(103u8, 1u8) ^ cmul(103u8, 1u8) == 0u8,
        cmul(103u8, 1u8) ^ cmul(103u8, 76u8) == 1u8,
        (cmul(41u8, 1u8) ^ cmul(85u8, 1u8)) ^ cmul(125u8, 1u8) == 1u8,
        (cmul(41u8, 1u8) ^ cmul(85u8, 2u8)) ^ cmul(125u8, 16u8) == 0u8,
        (cmul(41u8, 1u8) ^ cmul(85u8, 16u8)) ^ cmul(125u8, 76u8) == 0u8,
        (cmul(85u8, 1u8) ^ cmul(198u8, 1u8)) ^ cmul(147u8, 1u8) == 0u8,
        (cmul(85u8, 1u8) ^ cmul(198u8, 2u8)) ^ cmul(147u8, 16u8) == 1u8,
        (cmul(85u8, 1u8) ^ cmul(198u8, 16u8)) ^ cmul(147u8, 76u8) == 0u8,
        (cmul(125u8, 1u8) ^ cmul(147u8, 1u8)) ^ cmul(238u8, 1u8) == 0u8,
        (cmul(125u8, 1u8) ^ cmul(147u8, 2u8)) ^ cmul(238u8, 16u8) == 0u8,
        (cmul(125u8, 1u8) ^ cmul(147u8, 16u8)) ^ cmul(238u8, 76u8) == 1u8,
        (cmul(239u8, 1u8) ^ cmul(254u8, 1u8)) ^ cmul(16u8, 1u8) == 1u8,
        (cmul(239u8, 1u8) ^ cmul(254u8, 8u8)) ^ cmul(16u8, 205u8) == 0u8,
        (cmul(239u8, 1u8) ^ cmul(254u8, 16u8)) ^ cmul(16u8, 76u8) == 0u8,
        (cmul(104u8, 1u8) ^ cmul(118u8, 1u8)) ^ cmul(30u8, 1u8) == 0u8,
        (cmul(104u8, 1u8) ^ cmul(118u8, 8u8)) ^ cmul(30u8, 205u8) == 1u8,
        (cmul(104u8, 1u8) ^ cmul(118u8, 16u8)) ^ cmul(30u8, 76u8) == 0u8,
        (cmul(134u8, 1u8) ^ cmul(136u8, 1u8)) ^ cmul(14u8, 1u8) == 0u8,
        (cmul(134u8, 1u8) ^ cmul(136u8, 8u8)) ^ cmul(14u8, 205u8) == 0u8,
        (cmul(134u8, 1u8) ^ cmul(136u8, 16u8)) ^ cmul(14u8, 76u8) == 1u8,
        (cmul(223u8, 1u8) ^ cmul(226u8, 2u8)) ^ cmul(50u8, 16u8) == 1u8,
        (cmul(223u8, 1u8) ^ cmul(226u8, 4u8)) ^ cmul(50u8, 29u8) == 0u8,
        (cmul(223u8, 1u8) ^ cmul(226u8, 16u8)) ^ cmul(50u8, 76u8) == 0u8,
        (cmul(38u8, 1u8) ^ cmul(45u8, 2u8)) ^ cmul(206u8, 16u8) == 0u8,
        (cmul(38u8, 1u8) ^ cmul(45u8, 4u8)) ^ cmul(206u8, 29u8) == 1u8,
        (cmul(38u8, 1u8) ^ cmul(45u8, 16u8)) ^ cmul(206u8, 76u8) == 0u8,
        (cmul(248u8, 1u8) ^ cmul(207u8, 2u8)) ^ cmul(252u8, 16u8) == 0u8,
        (cmul(248u8, 1u8) ^ cmul(207u8, 4u8)) ^ cmul(252u8, 29u8) == 0u8,
        (cmul(248u8, 1u8) ^ cmul(207u8, 16u8)) ^ cmul(252u8, 76u8) == 1u8,
        (cmul(56u8, 1u8) ^ cmul(137u8, 2u8)) ^ cmul(233u8, 16u8) == 1u8,
        (cmul(56u8, 1u8) ^ cmul(137u8, 8u8)) ^ cmul(233u8, 205u8) == 0u8,
        (cmul(56u8, 1u8) ^ cmul(137u8, 16u8)) ^ cmul(233u8, 76u8) == 0u8,
        (cmul(223u8, 1u8) ^ cmul(182u8, 2u8)) ^ cmul(110u8, 16u8) == 0u8,
        (cmul(223u8, 1u8) ^ cmul(182u8, 8u8)) ^ cmul(110u8, 205u8) == 1u8,
        (cmul(223u8, 1u8) ^ cmul(182u8, 16u8)) ^ cmul(110u8, 76u8) == 0u8,
        (cmul(230u8, 1u8) ^ cmul(63u8, 2u8)) ^ cmul(135u8, 16u8) == 0u8,
        (cmul(230u8, 1u8) ^ cmul(63u8, 8u8)) ^ cmul(135u8, 205u8) == 0u8,
        (cmul(230u8, 1u8) ^ cmul(63u8, 16u8)) ^ cmul(135u8, 76u8) == 1u8,
        (cmul(239u8, 1u8) ^ cmul(104u8, 1u8)) ^ cmul(134u8, 1u8) == 1u8,
        (cmul(239u8, 1u8) ^ cmul(104u8, 8u8)) ^ cmul(134u8, 16u8) == 0u8,
        (cmul(239u8, 1u8) ^ cmul(104u8, 205u8)) ^ cmul(134u8, 76u8) == 0u8,
        (cmul(254u8, 1u8) ^ cmul(118u8, 1u8)) ^ cmul(136u8, 1u8) == 0u8,
        (cmul(254u8, 1u8) ^ cmul(118u8, 8u8)) ^ cmul(136u8, 16u8) == 1u8,
        (cmul(254u8, 1u8) ^ cmul(118u8, 205u8)) ^ cmul(136u8, 76u8) == 0u8,
        (cmul(16u8, 1u8) ^ cmul(30u8, 1u8)) ^ cmul(14u8, 1u8) == 0u8,
        (cmul(16u8, 1u8) ^ cmul(30u8, 8u8)) ^ cmul(14u8, 16u8) == 0u8,
        (cmul(16u8, 1u8) ^ cmul(30u8, 205u8)) ^ cmul(14u8, 76u8) == 1u8,
        (cmul(185u8, 1u8) ^ cmul(197u8, 1u8)) ^ cmul(125u8, 1u8) == 1u8,
        (cmul(185u8, 1u8) ^ cmul(197u8, 58u8)) ^ cmul(125u8, 205u8) == 0u8,
        (cmul(185u8, 1u8) ^ cmul(197u8, 205u8)) ^ cmul(125u8, 76u8) == 0u8,
        (cmul(197u8, 1u8) ^ cmul(228u8, 1u8)) ^ cmul(33u8, 1u8) == 0u8,
        (cmul(197u8, 1u8) ^ cmul(228u8, 58u8)) ^ cmul(33u8, 205u8) == 1u8,
        (cmul(197u8, 1u8) ^ cmul(228u8, 205u8)) ^ cmul(33u8, 76u8) == 0u8,
        (cmul(125u8, 1u8) ^ cmul(33u8, 1u8)) ^ cmul(92u8, 1u8) == 0u8,
        (cmul(125u8, 1u8) ^ cmul(33u8, 58u8)) ^ cmul(92u8, 205u8) == 0u8,
        (cmul(125u8, 1u8) ^ cmul(33u8, 205u8)) ^ cmul(92u8, 76u8) == 1u8,
        (cmul(48u8, 1u8) ^ cmul(126u8, 8u8)) ^ cmul(228u8, 16u8) == 1u8,
        (cmul(48u8, 1u8) ^ cmul(126u8, 64u8)) ^ cmul(228u8, 29u8) == 0u8,
        (cmul(48u8, 1u8) ^ cmul(126u8, 205u8)) ^ cmul(228u8, 76u8) == 0u8,
        (cmul(7u8, 1u8) ^ cmul(223u8, 8u8)) ^ cmul(211u8, 16u8) == 0u8,
        (cmul(7u8, 1u8) ^ cmul(223u8, 64u8)) ^ cmul(211u8, 29u8) == 1u8,
        (cmul(7u8, 1u8) ^ cmul(223u8, 205u8)) ^ cmul(211u8, 76u8) == 0u8,
        (cmul(54u8, 1u8) ^ cmul(161u8, 8u8)) ^ cmul(55u8, 16u8) == 0u8,
        (cmul(54u8, 1u8) ^ cmul(161u8, 64u8)) ^ cmul(55u8, 29u8) == 0u8,
        (cmul(54u8, 1u8) ^ cmul(161u8, 205u8)) ^ cmul(55u8, 76u8) == 1u8,
        (cmul(149u8, 1u8) ^ cmul(131u8, 8u8)) ^ cmul(129u8, 16u8) == 1u8,
        (cmul(149u8, 1u8) ^ cmul(131u8, 58u8)) ^ cmul(129u8, 205u8) == 0u8,
        (cmul(149u8, 1u8) ^ cmul(131u8, 205u8)) ^ cmul(129u8, 76u8) == 0u8,
        (cmul(147u8, 1u8) ^ cmul(232u8, 8u8)) ^ cmul(8u8, 16u8) == 0u8,
        (cmul(147u8, 1u8) ^ cmul(232u8, 58u8)) ^ cmul(8u8, 205u8) == 1u8,
        (cmul(147u8, 1u8) ^ cmul(232u8, 205u8)) ^ cmul(8u8, 76u8) == 0u8,
        (cmul(7u8, 1u8) ^ cmul(107u8, 8u8)) ^ cmul(137u8, 16u8) == 0u8,
        (cmul(7u8, 1u8) ^ cmul(107u8, 58u8)) ^ cmul(137u8, 205u8) == 0u8,
        (cmul(7u8, 1u8) ^ cmul(107u8, 205u8)) ^ cmul(137u8, 76u8) == 1u8,
        (cmul(223u8, 1u8) ^ cmul(38u8, 1u8)) ^ cmul(248u8, 1u8) == 1u8,
        (cmul(223u8, 2u8) ^ cmul(38u8, 4u8)) ^ cmul(248u8, 16u8) == 0u8,
        (cmul(223u8, 16u8) ^ cmul(38u8, 29u8)) ^ cmul(248u8, 76u8) == 0u8,
        (cmul(226u8, 1u8) ^ cmul(45u8, 1u8)) ^ cmul(207u8, 1u8) == 0u8,
        (cmul(226u8, 2u8) ^ cmul(45u8, 4u8)) ^ cmul(207u8, 16u8) == 1u8,
        (cmul(226u8, 16u8) ^ cmul(45u8, 29u8)) ^ cmul(207u8, 76u8) == 0u8,
        (cmul(50u8, 1u8) ^ cmul(206u8, 1u8)) ^ cmul(252u8, 1u8) == 0u8,
        (cmul(50u8, 2u8) ^ cmul(206u8, 4u8)) ^ cmul(252u8, 16u8) == 0u8,
        (cmul(50u8, 16u8) ^ cmul(206u8, 29u8)) ^ cmul(252u8, 76u8) == 1u8,
        (cmul(48u8, 1u8) ^ cmul(7u8, 1u8)) ^ cmul(54u8, 1u8) == 1u8,
        (cmul(48u8, 8u8) ^ cmul(7u8, 64u8)) ^ cmul(54u8, 205u8) == 0u8,
        (cmul(48u8, 16u8) ^ cmul(7u8, 29u8)) ^ cmul(54u8, 76u8) == 0u8,
        (cmul(126u8, 1u8) ^ cmul(223u8, 1u8)) ^ cmul(161u8, 1u8) == 0u8,
        (cmul(126u8, 8u8) ^ cmul(223u8, 64u8)) ^ cmul(161u8, 205u8) == 1u8,
        (cmul(126u8, 16u8) ^ cmul(223u8, 29u8)) ^ cmul(161u8, 76u8) == 0u8,
        (cmul(228u8, 1u8) ^ cmul(211u8, 1u8)) ^ cmul(55u8, 1u8) == 0u8,
        (cmul(228u8, 8u8) ^ cmul(211u8, 64u8)) ^ cmul(55u8, 205u8) == 0u8,
        (cmul(228u8, 16u8) ^ cmul(211u8, 29u8)) ^ cmul(55u8, 76u8) == 1u8,
        (cmul(120u8, 2u8) ^ cmul(145u8, 4u8)) ^ cmul(180u8, 16u8) == 1u8,
        (cmul(120u8, 4u8) ^ cmul(145u8, 16u8)) ^ cmul(180u8, 29u8) == 0u8,
        (cmul(120u8, 16u8) ^ cmul(145u8, 29u8)) ^ cmul(180u8, 76u8) == 0u8,
        (cmul(145u8, 2u8) ^ cmul(223u8, 4u8)) ^ cmul(65u8, 16u8) == 0u8,
        (cmul(145u8, 4u8) ^ cmul(223u8, 16u8)) ^ cmul(65u8, 29u8) == 1u8,
        (cmul(145u8, 16u8) ^ cmul(223u8, 29u8)) ^ cmul(65u8, 76u8) == 0u8,
        (cmul(180u8, 2u8) ^ cmul(65u8, 4u8)) ^ cmul(207u8, 16u8) == 0u8,
        (cmul(180u8, 4u8) ^ cmul(65u8, 16u8)) ^ cmul(207u8, 29u8) == 0u8,
        (cmul(180u8, 16u8) ^ cmul(65u8, 29u8)) ^ cmul(207u8, 76u8) == 1u8,
        (cmul(198u8, 2u8) ^ cmul(120u8, 4u8)) ^ cmul(23u8, 16u8) == 1u8,
        (cmul(198u8, 8u8) ^ cmul(120u8, 64u8)) ^ cmul(23u8, 205u8) == 0u8,
        (cmul(198u8, 16u8) ^ cmul(120u8, 29u8)) ^ cmul(23u8, 76u8) == 0u8,
        (cmul(181u8, 2u8) ^ cmul(138u8, 4u8)) ^ cmul(153u8, 16u8) == 0u8,
        (cmul(181u8, 8u8) ^ cmul(138u8, 64u8)) ^ cmul(153u8, 205u8) == 1u8,
        (cmul(181u8, 16u8) ^ cmul(138u8, 29u8)) ^ cmul(153u8, 76u8) == 0u8,
        (cmul(221u8, 2u8) ^ cmul(74u8, 4u8)) ^ cmul(164u8, 16u8) == 0u8,
        (cmul(221u8, 8u8) ^ cmul(74u8, 64u8)) ^ cmul(164u8, 205u8) == 0u8,
        (cmul(221u8, 16u8) ^ cmul(74u8, 29u8)) ^ cmul(164u8, 76u8) == 1u8,
        (cmul(56u8, 1u8) ^ cmul(223u8, 1u8)) ^ cmul(230u8, 1u8) == 1u8,
        (cmul(56u8, 2u8) ^ cmul(223u8, 8u8)) ^ cmul(230u8, 16u8) == 0u8,
        (cmul(56u8, 16u8) ^ cmul(223u8, 205u8)) ^ cmul(230u8, 76u8) == 0u8,
        (cmul(137u8, 1u8) ^ cmul(182u8, 1u8)) ^ cmul(63u8, 1u8) == 0u8,
        (cmul(137u8, 2u8) ^ cmul(182u8, 8u8)) ^ cmul(63u8, 16u8) == 1u8,
        (cmul(137u8, 16u8) ^ cmul(182u8, 205u8)) ^ cmul(63u8, 76u8) == 0u8,
        (cmul(233u8, 1u8) ^ cmul(110u8, 1u8)) ^ cmul(135u8, 1u8) == 0u8,
        (cmul(233u8, 2u8) ^ cmul(110u8, 8u8)) ^ cmul(135u8, 16u8) == 0u8,
        (cmul(233u8, 16u8) ^ cmul(110u8, 205u8)) ^ cmul(135u8, 76u8) == 1u8,
        (cmul(149u8, 1u8) ^ cmul(147u8, 1u8)) ^ cmul(7u8, 1u8) == 1u8,
        (cmul(149u8, 8u8) ^ cmul(147u8, 58u8)) ^ cmul(7u8, 205u8) == 0u8,
        (cmul(149u8, 16u8) ^ cmul(147u8, 205u8)) ^ cmul(7u8, 76u8) == 0u8,
        (cmul(131u8, 1u8) ^ cmul(232u8, 1u8)) ^ cmul(107u8, 1u8) == 0u8,
        (cmul(131u8, 8u8) ^ cmul(232u8, 58u8)) ^ cmul(107u8, 205u8) == 1u8,
        (cmul(131u8, 16u8) ^ cmul(232u8, 205u8)) ^ cmul(107u8, 76u8) == 0u8,
        (cmul(129u8, 1u8) ^ cmul(8u8, 1u8)) ^ cmul(137u8, 1u8) == 0u8,
        (cmul(129u8, 8u8) ^ cmul(8u8, 58u8)) ^ cmul(137u8, 205u8) == 0u8,
        (cmul(129u8, 16u8) ^ cmul(8u8, 205u8)) ^ cmul(137u8, 76u8) == 1u8,
        (cmul(198u8, 2u8) ^ cmul(181u8, 8u8)) ^ cmul(221u8, 16u8) == 1u8,
        (cmul(198u8, 4u8) ^ cmul(181u8, 64u8)) ^ cmul(221u8, 29u8) == 0u8,
        (cmul(198u8, 16u8) ^ cmul(181u8, 205u8)) ^ cmul(221u8, 76u8) == 0u8,
        (cmul(120u8, 2u8) ^ cmul(138u8, 8u8)) ^ cmul(74u8, 16u8) == 0u8,
        (cmul(120u8, 4u8) ^ cmul(138u8, 64u8)) ^ cmul(74u8, 29u8) == 1u8,
        (cmul(120u8, 16u8) ^ cmul(138u8, 205u8)) ^ cmul(74u8, 76u8) == 0u8,
        (cmul(23u8, 2u8) ^ cmul(153u8, 8u8)) ^ cmul(164u8, 16u8) == 0u8,
        (cmul(23u8, 4u8) ^ cmul(153u8, 64u8)) ^ cmul(164u8, 29u8) == 0u8,
        (cmul(23u8, 16u8) ^ cmul(153u8, 205u8)) ^ cmul(164u8, 76u8) == 1u8,
        (cmul(64u8, 2u8) ^ cmul(200u8, 8u8)) ^ cmul(180u8, 16u8) == 1u8,
        (cmul(64u8, 8u8) ^ cmul(200u8, 58u8)) ^ cmul(180u8, 205u8) == 0u8,
        (cmul(64u8, 16u8) ^ cmul(200u8, 205u8)) ^ cmul(180u8, 76u8) == 0u8,
        (cmul(200u8, 2u8) ^ cmul(214u8, 8u8)) ^ cmul(114u8, 16u8) == 0u8,
        (cmul(200u8, 8u8) ^ cmul(214u8, 58u8)) ^ cmul(114u8, 205u8) == 1u8,
        (cmul(200u8, 16u8) ^ cmul(214u8, 205u8)) ^ cmul(114u8, 76u8) == 0u8,
        (cmul(180u8, 2u8) ^ cmul(114u8, 8u8)) ^ cmul(161u8, 16u8) == 0u8,
        (cmul(180u8, 8u8) ^ cmul(114u8, 58u8)) ^ cmul(161u8, 205u8) == 0u8,
        (cmul(180u8, 16u8) ^ cmul(114u8, 205u8)) ^ cmul(161u8, 76u8) == 1u8,
        ((cmul(141u8, 1u8) ^ cmul(71u8, 1u8)) ^ cmul(152u8, 1u8)) ^ cmul(83u8, 1u8) == 1u8,
        ((cmul(141u8, 1u8) ^ cmul(71u8, 2u8)) ^ cmul(152u8, 4u8)) ^ cmul(83u8, 16u8) == 0u8,
        ((cmul(141u8, 1u8) ^ cmul(71u8, 4u8)) ^ cmul(152u8, 16u8)) ^ cmul(83u8, 29u8) == 0u8,
        ((cmul(141u8, 1u8) ^ cmul(71u8, 16u8)) ^ cmul(152u8, 29u8)) ^ cmul(83u8, 76u8) == 0u8,
        ((cmul(71u8, 1u8) ^ cmul(40u8, 1u8)) ^ cmul(91u8, 1u8)) ^ cmul(52u8, 1u8) == 0u8,
        ((cmul(71u8, 1u8) ^ cmul(40u8, 2u8)) ^ cmul(91u8, 4u8)) ^ cmul(52u8, 16u8) == 1u8,
        ((cmul(71u8, 1u8) ^ cmul(40u8, 4u8)) ^ cmul(91u8, 16u8)) ^ cmul(52u8, 29u8) == 0u8,
        ((cmul(71u8, 1u8) ^ cmul(40u8, 16u8)) ^ cmul(91u8, 29u8)) ^ cmul(52u8, 76u8) == 0u8,
        ((cmul(152u8, 1u8) ^ cmul(91u8, 1u8)) ^ cmul(132u8, 1u8)) ^ cmul(71u8, 1u8) == 0u8,
        ((cmul(152u8, 1u8) ^ cmul(91u8, 2u8)) ^ cmul(132u8, 4u8)) ^ cmul(71u8, 16u8) == 0u8,
        ((cmul(152u8, 1u8) ^ cmul(91u8, 4u8)) ^ cmul(132u8, 16u8)) ^ cmul(71u8, 29u8) == 1u8,
        ((cmul(152u8, 1u8) ^ cmul(91u8, 16u8)) ^ cmul(132u8, 29u8)) ^ cmul(71u8, 76u8) == 0u8,
        ((cmul(83u8, 1u8) ^ cmul(52u8, 1u8)) ^ cmul(71u8, 1u8)) ^ cmul(32u8, 1u8) == 0u8,
        ((cmul(83u8, 1u8) ^ cmul(52u8, 2u8)) ^ cmul(71u8, 4u8)) ^ cmul(32u8, 16u8) == 0u8,
        ((cmul(83u8, 1u8) ^ cmul(52u8, 4u8)) ^ cmul(71u8, 16u8)) ^ cmul(32u8, 29u8) == 0u8,
        ((cmul(83u8, 1u8) ^ cmul(52u8, 16u8)) ^ cmul(71u8, 29u8)) ^ cmul(32u8, 76u8) == 1u8,
        ((cmul(12u8, 1u8) ^ cmul(155u8, 1u8)) ^ cmul(115u8, 1u8)) ^ cmul(229u8, 1u8) == 1u8,
        ((cmul(12u8, 1u8) ^ cmul(155u8, 2u8)) ^ cmul(115u8, 4u8)) ^ cmul(229u8, 16u8) == 0u8,
        ((cmul(12u8, 1u8) ^ cmul(155u8, 8u8)) ^ cmul(115u8, 64u8)) ^ cmul(229u8, 205u8) == 0u8,
        ((cmul(12u8, 1u8) ^ cmul(155u8, 16u8)) ^ cmul(115u8, 29u8)) ^ cmul(229u8, 76u8) == 0u8,
        ((cmul(191u8, 1u8) ^ cmul(105u8, 1u8)) ^ cmul(77u8, 1u8)) ^ cmul(155u8, 1u8) == 0u8,
        ((cmul(191u8, 1u8) ^ cmul(105u8, 2u8)) ^ cmul(77u8, 4u8)) ^ cmul(155u8, 16u8) == 1u8,
        ((cmul(191u8, 1u8) ^ cmul(105u8, 8u8)) ^ cmul(77u8, 64u8)) ^ cmul(155u8, 205u8) == 0u8,
        ((cmul(191u8, 1u8) ^ cmul(105u8, 16u8)) ^ cmul(77u8, 29u8)) ^ cmul(155u8, 76u8) == 0u8,
        ((cmul(251u8, 1u8) ^ cmul(80u8, 1u8)) ^ cmul(68u8, 1u8)) ^ cmul(239u8, 1u8) == 0u8,
        ((cmul(251u8, 1u8) ^ cmul(80u8, 2u8)) ^ cmul(68u8, 4u8)) ^ cmul(239u8, 16u8) == 0u8,
        ((cmul(251u8, 1u8) ^ cmul(80u8, 8u8)) ^ cmul(68u8, 64u8)) ^ cmul(239u8, 205u8) == 1u8,
        ((cmul(251u8, 1u8) ^ cmul(80u8, 16u8)) ^ cmul(68u8, 29u8)) ^ cmul(239u8, 76u8) == 0u8,
        ((cmul(73u8, 1u8) ^ cmul(162u8, 1u8)) ^ cmul(122u8, 1u8)) ^ cmul(145u8, 1u8) == 0u8,
        ((cmul(73u8, 1u8) ^ cmul(162u8, 2u8)) ^ cmul(122u8, 4u8)) ^ cmul(145u8, 16u8) == 0u8,
        ((cmul(73u8, 1u8) ^ cmul(162u8, 8u8)) ^ cmul(122u8, 64u8)) ^ cmul(145u8, 205u8) == 0u8,
        ((cmul(73u8, 1u8) ^ cmul(162u8, 16u8)) ^ cmul(122u8, 29u8)) ^ cmul(145u8, 76u8) == 1u8,
        ((cmul(187u8, 1u8) ^ cmul(203u8, 1u8)) ^ cmul(102u8, 1u8)) ^ cmul(23u8, 1u8) == 1u8,
        ((cmul(187u8, 1u8) ^ cmul(203u8, 4u8)) ^ cmul(102u8, 16u8)) ^ cmul(23u8, 29u8) == 0u8,
        ((cmul(187u8, 1u8) ^ cmul(203u8, 8u8)) ^ cmul(102u8, 64u8)) ^ cmul(23u8, 205u8) == 0u8,
        ((cmul(187u8, 1u8) ^ cmul(203u8, 16u8)) ^ cmul(102u8, 29u8)) ^ cmul(23u8, 76u8) == 0u8,
        ((cmul(161u8, 1u8) ^ cmul(249u8, 1u8)) ^ cmul(159u8, 1u8)) ^ cmul(199u8, 1u8) == 0u8,
        ((cmul(161u8, 1u8) ^ cmul(249u8, 4u8)) ^ cmul(159u8, 16u8)) ^ cmul(199u8, 29u8) == 1u8,
        ((cmul(161u8, 1u8) ^ cmul(249u8, 8u8)) ^ cmul(159u8, 64u8)) ^ cmul(199u8, 205u8) == 0u8,
        ((cmul(161u8, 1u8) ^ cmul(249u8, 16u8)) ^ cmul(159u8, 29u8)) ^ cmul(199u8, 76u8) == 0u8,
        ((cmul(248u8, 1u8) ^ cmul(179u8, 1u8)) ^ cmul(89u8, 1u8)) ^ cmul(18u8, 1u8) == 0u8,
        ((cmul(248u8, 1u8) ^ cmul(179u8, 4u8)) ^ cmul(89u8, 16u8)) ^ cmul(18u8, 29u8) == 0u8,
        ((cmul(248u8, 1u8) ^ cmul(179u8, 8u8)) ^ cmul(89u8, 64u8)) ^ cmul(18u8, 205u8) == 1u8,
        ((cmul(248u8, 1u8) ^ cmul(179u8, 16u8)) ^ cmul(89u8, 29u8)) ^ cmul(18u8, 76u8) == 0u8,
        ((cmul(227u8, 1u8) ^ cmul(129u8, 1u8)) ^ cmul(160u8, 1u8)) ^ cmul(194u8, 1u8) == 0u8,
        ((cmul(227u8, 1u8) ^ cmul(129u8, 4u8)) ^ cmul(160u8, 16u8)) ^ cmul(194u8, 29u8) == 0u8,
        ((cmul(227u8, 1u8) ^ cmul(129u8, 8u8)) ^ cmul(160u8, 64u8)) ^ cmul(194u8, 205u8) == 0u8,
        ((cmul(227u8, 1u8) ^ cmul(129u8, 16u8)) ^ cmul(160u8, 29u8)) ^ cmul(194u8, 76u8) == 1u8,
        ((cmul(12u8, 1u8) ^ cmul(191u8, 1u8)) ^ cmul(251u8, 1u8)) ^ cmul(73u8, 1u8) == 1u8,
        ((cmul(12u8, 1u8) ^ cmul(191u8, 2u8)) ^ cmul(251u8, 8u8)) ^ cmul(73u8, 16u8) == 0u8,
        ((cmul(12u8, 1u8) ^ cmul(191u8, 4u8)) ^ cmul(251u8, 64u8)) ^ cmul(73u8, 29u8) == 0u8,
        ((cmul(12u8, 1u8) ^ cmul(191u8, 16u8)) ^ cmul(251u8, 205u8)) ^ cmul(73u8, 76u8) == 0u8,
        ((cmul(155u8, 1u8) ^ cmul(105u8, 1u8)) ^ cmul(80u8, 1u8)) ^ cmul(162u8, 1u8) == 0u8,
        ((cmul(155u8, 1u8) ^ cmul(105u8, 2u8)) ^ cmul(80u8, 8u8)) ^ cmul(162u8, 16u8) == 1u8,
        ((cmul(155u8, 1u8) ^ cmul(105u8, 4u8)) ^ cmul(80u8, 64u8)) ^ cmul(162u8, 29u8) == 0u8,
        ((cmul(155u8, 1u8) ^ cmul(105u8, 16u8)) ^ cmul(80u8, 205u8)) ^ cmul(162u8, 76u8) == 0u8,
        ((cmul(115u8, 1u8) ^ cmul(77u8, 1u8)) ^ cmul(68u8, 1u8)) ^ cmul(122u8, 1u8) == 0u8,
        ((cmul(115u8, 1u8) ^ cmul(77u8, 2u8)) ^ cmul(68u8, 8u8)) ^ cmul(122u8, 16u8) == 0u8,
        ((cmul(115u8, 1u8) ^ cmul(77u8, 4u8)) ^ cmul(68u8, 64u8)) ^ cmul(122u8, 29u8) == 1u8,
        ((cmul(115u8, 1u8) ^ cmul(77u8, 16u8)) ^ cmul(68u8, 205u8)) ^ cmul(122u8, 76u8) == 0u8,
        ((cmul(229u8, 1u8) ^ cmul(155u8, 1u8)) ^ cmul(239u8, 1u8)) ^ cmul(145u8, 1u8) == 0u8,
        ((cmul(229u8, 1u8) ^ cmul(155u8, 2u8)) ^ cmul(239u8, 8u8)) ^ cmul(145u8, 16u8) == 0u8,
        ((cmul(229u8, 1u8) ^ cmul(155u8, 4u8)) ^ cmul(239u8, 64u8)) ^ cmul(145u8, 29u8) == 0u8,
        ((cmul(229u8, 1u8) ^ cmul(155u8, 16u8)) ^ cmul(239u8, 205u8)) ^ cmul(145u8, 76u8) == 1u8,
        ((cmul(64u8, 1u8) ^ cmul(187u8, 1u8)) ^ cmul(2u8, 1u8)) ^ cmul(248u8, 1u8) == 1u8,
        ((cmul(64u8, 1u8) ^ cmul(187u8, 2u8)) ^ cmul(2u8, 8u8)) ^ cmul(248u8, 16u8) == 0u8,
        ((cmul(64u8, 1u8) ^ cmul(187u8, 8u8)) ^ cmul(2u8, 58u8)) ^ cmul(248u8, 205u8) == 0u8,
        ((cmul(64u8, 1u8) ^ cmul(187u8, 16u8)) ^ cmul(2u8, 205u8)) ^ cmul(248u8, 76u8) == 0u8,
        ((cmul(187u8, 1u8) ^ cmul(166u8, 1u8)) ^ cmul(176u8, 1u8)) ^ cmul(173u8, 1u8) == 0u8,
        ((cmul(187u8, 1u8) ^ cmul(166u8, 2u8)) ^ cmul(176u8, 8u8)) ^ cmul(173u8, 16u8) == 1u8,
        ((cmul(187u8, 1u8) ^ cmul(166u8, 8u8)) ^ cmul(176u8, 58u8)) ^ cmul(173u8, 205u8) == 0u8,
        ((cmul(187u8, 1u8) ^ cmul(166u8, 16u8)) ^ cmul(176u8, 205u8)) ^ cmul(173u8, 76u8) == 0u8,
        ((cmul(2u8, 1u8) ^ cmul(176u8, 1u8)) ^ cmul(14u8, 1u8)) ^ cmul(188u8, 1u8) == 0u8,
        ((cmul(2u8, 1u8) ^ cmul(176u8, 2u8)) ^ cmul(14u8, 8u8)) ^ cmul(188u8, 16u8) == 0u8,
        ((cmul(2u8, 1u8) ^ cmul(176u8, 8u8)) ^ cmul(14u8, 58u8)) ^ cmul(188u8, 205u8) == 1u8,
        ((cmul(2u8, 1u8) ^ cmul(176u8, 16u8)) ^ cmul(14u8, 205u8)) ^ cmul(188u8, 76u8) == 0u8,
        ((cmul(248u8, 1u8) ^ cmul(173u8, 1u8)) ^ cmul(188u8, 1u8)) ^ cmul(233u8, 1u8) == 0u8,
        ((cmul(248u8, 1u8) ^ cmul(173u8, 2u8)) ^ cmul(188u8, 8u8)) ^ cmul(233u8, 16u8) == 0u8,
        ((cmul(248u8, 1u8) ^ cmul(173u8, 8u8)) ^ cmul(188u8, 58u8)) ^ cmul(233u8, 205u8) == 0u8,
        ((cmul(248u8, 1u8) ^ cmul(173u8, 16u8)) ^ cmul(188u8, 205u8)) ^ cmul(233u8, 76u8) == 1u8,
        ((cmul(49u8, 1u8) ^ cmul(144u8, 1u8)) ^ cmul(69u8, 1u8)) ^ cmul(229u8, 1u8) == 1u8,
        ((cmul(49u8, 1u8) ^ cmul(144u8, 4u8)) ^ cmul(69u8, 64u8)) ^ cmul(229u8, 29u8) == 0u8,
        ((cmul(49u8, 1u8) ^ cmul(144u8, 8u8)) ^ cmul(69u8, 58u8)) ^ cmul(229u8, 205u8) == 0u8,
        ((cmul(49u8, 1u8) ^ cmul(144u8, 16u8)) ^ cmul(69u8, 205u8)) ^ cmul(229u8, 76u8) == 0u8,
        ((cmul(139u8, 1u8) ^ cmul(52u8, 1u8)) ^ cmul(21u8, 1u8)) ^ cmul(170u8, 1u8) == 0u8,
        ((cmul(139u8, 1u8) ^ cmul(52u8, 4u8)) ^ cmul(21u8, 64u8)) ^ cmul(170u8, 29u8) == 1u8,
        ((cmul(139u8, 1u8) ^ cmul(52u8, 8u8)) ^ cmul(21u8, 58u8)) ^ cmul(170u8, 205u8) == 0u8,
        ((cmul(139u8, 1u8) ^ cmul(52u8, 16u8)) ^ cmul(21u8, 205u8)) ^ cmul(170u8, 76u8) == 0u8,
        ((cmul(242u8, 1u8) ^ cmul(80u8, 1u8)) ^ cmul(5u8, 1u8)) ^ cmul(167u8, 1u8) == 0u8,
        ((cmul(242u8, 1u8) ^ cmul(80u8, 4u8)) ^ cmul(5u8, 64u8)) ^ cmul(167u8, 29u8) == 0u8,
        ((cmul(242u8, 1u8) ^ cmul(80u8, 8u8)) ^ cmul(5u8, 58u8)) ^ cmul(167u8, 205u8) == 1u8,
        ((cmul(242u8, 1u8) ^ cmul(80u8, 16u8)) ^ cmul(5u8, 205u8)) ^ cmul(167u8, 76u8) == 0u8,
        ((cmul(73u8, 1u8) ^ cmul(244u8, 1u8)) ^ cmul(85u8, 1u8)) ^ cmul(232u8, 1u8) == 0u8,
        ((cmul(73u8, 1u8) ^ cmul(244u8, 4u8)) ^ cmul(85u8, 64u8)) ^ cmul(232u8, 29u8) == 0u8,
        ((cmul(73u8, 1u8) ^ cmul(244u8, 8u8)) ^ cmul(85u8, 58u8)) ^ cmul(232u8, 205u8) == 0u8,
        ((cmul(73u8, 1u8) ^ cmul(244u8, 16u8)) ^ cmul(85u8, 205u8)) ^ cmul(232u8, 76u8) == 1u8,
        ((cmul(187u8, 1u8) ^ cmul(161u8, 1u8)) ^ cmul(248u8, 1u8)) ^ cmul(227u8, 1u8) == 1u8,
        ((cmul(187u8, 1u8) ^ cmul(161u8, 4u8)) ^ cmul(248u8, 8u8)) ^ cmul(227u8, 16u8) == 0u8,
        ((cmul(187u8, 1u8) ^ cmul(161u8, 16u8)) ^ cmul(248u8, 64u8)) ^ cmul(227u8, 29u8) == 0u8,
        ((cmul(187u8, 1u8) ^ cmul(161u8, 29u8)) ^ cmul(248u8, 205u8)) ^ cmul(227u8, 76u8) == 0u8,
        ((cmul(203u8, 1u8) ^ cmul(249u8, 1u8)) ^ cmul(179u8, 1u8)) ^ cmul(129u8, 1u8) == 0u8,
        ((cmul(203u8, 1u8) ^ cmul(249u8, 4u8)) ^ cmul(179u8, 8u8)) ^ cmul(129u8, 16u8) == 1u8,
        ((cmul(203u8, 1u8) ^ cmul(249u8, 16u8)) ^ cmul(179u8, 64u8)) ^ cmul(129u8, 29u8) == 0u8,
        ((cmul(203u8, 1u8) ^ cmul(249u8, 29u8)) ^ cmul(179u8, 205u8)) ^ cmul(129u8, 76u8) == 0u8,
        ((cmul(102u8, 1u8) ^ cmul(159u8, 1u8)) ^ cmul(89u8, 1u8)) ^ cmul(160u8, 1u8) == 0u8,
        ((cmul(102u8, 1u8) ^ cmul(159u8, 4u8)) ^ cmul(89u8, 8u8)) ^ cmul(160u8, 16u8) == 0u8,
        ((cmul(102u8, 1u8) ^ cmul(159u8, 16u8)) ^ cmul(89u8, 64u8)) ^ cmul(160u8, 29u8) == 1u8,
        ((cmul(102u8, 1u8) ^ cmul(159u8, 29u8)) ^ cmul(89u8, 205u8)) ^ cmul(160u8, 76u8) == 0u8,
        ((cmul(23u8, 1u8) ^ cmul(199u8, 1u8)) ^ cmul(18u8, 1u8)) ^ cmul(194u8, 1u8) == 0u8,
        ((cmul(23u8, 1u8) ^ cmul(199u8, 4u8)) ^ cmul(18u8, 8u8)) ^ cmul(194u8, 16u8) == 0u8,
        ((cmul(23u8, 1u8) ^ cmul(199u8, 16u8)) ^ cmul(18u8, 64u8)) ^ cmul(194u8, 29u8) == 0u8,
        ((cmul(23u8, 1u8) ^ cmul(199u8, 29u8)) ^ cmul(18u8, 205u8)) ^ cmul(194u8, 76u8) == 1u8,
        ((cmul(49u8, 1u8) ^ cmul(139u8, 1u8)) ^ cmul(242u8, 1u8)) ^ cmul(73u8, 1u8) == 1u8,
        ((cmul(49u8, 1u8) ^ cmul(139u8, 4u8)) ^ cmul(242u8, 8u8)) ^ cmul(73u8, 16u8) == 0u8,
        ((cmul(49u8, 1u8) ^ cmul(139u8, 64u8)) ^ cmul(242u8, 58u8)) ^ cmul(73u8, 205u8) == 0u8,
        ((cmul(49u8, 1u8) ^ cmul(139u8, 29u8)) ^ cmul(242u8, 205u8)) ^ cmul(73u8, 76u8) == 0u8,
        ((cmul(144u8, 1u8) ^ cmul(52u8, 1u8)) ^ cmul(80u8, 1u8)) ^ cmul(244u8, 1u8) == 0u8,
        ((cmul(144u8, 1u8) ^ cmul(52u8, 4u8)) ^ cmul(80u8, 8u8)) ^ cmul(244u8, 16u8) == 1u8,
        ((cmul(144u8, 1u8) ^ cmul(52u8, 64u8)) ^ cmul(80u8, 58u8)) ^ cmul(244u8, 205u8) == 0u8,
        ((cmul(144u8, 1u8) ^ cmul(52u8, 29u8)) ^ cmul(80u8, 205u8)) ^ cmul(244u8, 76u8) == 0u8,
        ((cmul(69u8, 1u8) ^ cmul(21u8, 1u8)) ^ cmul(5u8, 1u8)) ^ cmul(85u8, 1u8) == 0u8,
        ((cmul(69u8, 1u8) ^ cmul(21u8, 4u8)) ^ cmul(5u8, 8u8)) ^ cmul(85u8, 16u8) == 0u8,
        ((cmul(69u8, 1u8) ^ cmul(21u8, 64u8)) ^ cmul(5u8, 58u8)) ^ cmul(85u8, 205u8) == 1u8,
        ((cmul(69u8, 1u8) ^ cmul(21u8, 29u8)) ^ cmul(5u8, 205u8)) ^ cmul(85u8, 76u8) == 0u8,
        ((cmul(229u8, 1u8) ^ cmul(170u8, 1u8)) ^ cmul(167u8, 1u8)) ^ cmul(232u8, 1u8) == 0u8,
        ((cmul(229u8, 1u8) ^ cmul(170u8, 4u8)) ^ cmul(167u8, 8u8)) ^ cmul(232u8, 16u8) == 0u8,
        ((cmul(229u8, 1u8) ^ cmul(170u8, 64u8)) ^ cmul(167u8, 58u8)) ^ cmul(232u8, 205u8) == 0u8,
        ((cmul(229u8, 1u8) ^ cmul(170u8, 29u8)) ^ cmul(167u8, 205u8)) ^ cmul(232u8, 76u8) == 1u8,
        ((cmul(117u8, 1u8) ^ cmul(64u8, 1u8)) ^ cmul(103u8, 1u8)) ^ cmul(83u8, 1u8) == 1u8,
        ((cmul(117u8, 1u8) ^ cmul(64u8, 16u8)) ^ cmul(103u8, 64u8)) ^ cmul(83u8, 29u8) == 0u8,
        ((cmul(117u8, 1u8) ^ cmul(64u8, 64u8)) ^ cmul(103u8, 58u8)) ^ cmul(83u8, 205u8) == 0u8,
        ((cmul(117u8, 1u8) ^ cmul(64u8, 29u8)) ^ cmul(103u8, 205u8)) ^ cmul(83u8, 76u8) == 0u8,
        ((cmul(64u8, 1u8) ^ cmul(132u8, 1u8)) ^ cmul(254u8, 1u8)) ^ cmul(58u8, 1u8) == 0u8,
        ((cmul(64u8, 1u8) ^ cmul(132u8, 16u8)) ^ cmul(254u8, 64u8)) ^ cmul(58u8, 29u8) == 1u8,
        ((cmul(64u8, 1u8) ^ cmul(132u8, 64u8)) ^ cmul(254u8, 58u8)) ^ cmul(58u8, 205u8) == 0u8,
        ((cmul(64u8, 1u8) ^ cmul(132u8, 29u8)) ^ cmul(254u8, 205u8)) ^ cmul(58u8, 76u8) == 0u8,
        ((cmul(103u8, 1u8) ^ cmul(254u8, 1u8)) ^ cmul(193u8, 1u8)) ^ cmul(88u8, 1u8) == 0u8,
        ((cmul(103u8, 1u8) ^ cmul(254u8, 16u8)) ^ cmul(193u8, 64u8)) ^ cmul(88u8, 29u8) == 0u8,
        ((cmul(103u8, 1u8) ^ cmul(254u8, 64u8)) ^ cmul(193u8, 58u8)) ^ cmul(88u8, 205u8) == 1u8,
        ((cmul(103u8, 1u8) ^ cmul(254u8, 29u8)) ^ cmul(193u8, 205u8)) ^ cmul(88u8, 76u8) == 0u8,
        ((cmul(83u8, 1u8) ^ cmul(58u8, 1u8)) ^ cmul(88u8, 1u8)) ^ cmul(49u8, 1u8) == 0u8,
        ((cmul(83u8, 1u8) ^ cmul(58u8, 16u8)) ^ cmul(88u8, 64u8)) ^ cmul(49u8, 29u8) == 0u8,
        ((cmul(83u8, 1u8) ^ cmul(58u8, 64u8)) ^ cmul(88u8, 58u8)) ^ cmul(49u8, 205u8) == 0u8,
        ((cmul(83u8, 1u8) ^ cmul(58u8, 29u8)) ^ cmul(88u8, 205u8)) ^ cmul(49u8, 76u8) == 1u8,
{
}

} // verus!
