//! The lookup table of the table-driven engine.

use vstd::prelude::*;
use crate::gf2::mul_xn;

verus! {

/// `CRC32_TABLE[i]` is `i * x^8` modulo the generator, for the byte `i` read as a
/// residue of degree below 8.
pub const CRC32_TABLE: [u32; 256] = [
    0x00000000, 0x77073096, 0xee0e612c, 0x990951ba, 0x076dc419, 0x706af48f, 0xe963a535, 0x9e6495a3,
    0x0edb8832, 0x79dcb8a4, 0xe0d5e91e, 0x97d2d988, 0x09b64c2b, 0x7eb17cbd, 0xe7b82d07, 0x90bf1d91,
    0x1db71064, 0x6ab020f2, 0xf3b97148, 0x84be41de, 0x1adad47d, 0x6ddde4eb, 0xf4d4b551, 0x83d385c7,
    0x136c9856, 0x646ba8c0, 0xfd62f97a, 0x8a65c9ec, 0x14015c4f, 0x63066cd9, 0xfa0f3d63, 0x8d080df5,
    0x3b6e20c8, 0x4c69105e, 0xd56041e4, 0xa2677172, 0x3c03e4d1, 0x4b04d447, 0xd20d85fd, 0xa50ab56b,
    0x35b5a8fa, 0x42b2986c, 0xdbbbc9d6, 0xacbcf940, 0x32d86ce3, 0x45df5c75, 0xdcd60dcf, 0xabd13d59,
    0x26d930ac, 0x51de003a, 0xc8d75180, 0xbfd06116, 0x21b4f4b5, 0x56b3c423, 0xcfba9599, 0xb8bda50f,
    0x2802b89e, 0x5f058808, 0xc60cd9b2, 0xb10be924, 0x2f6f7c87, 0x58684c11, 0xc1611dab, 0xb6662d3d,
    0x76dc4190, 0x01db7106, 0x98d220bc, 0xefd5102a, 0x71b18589, 0x06b6b51f, 0x9fbfe4a5, 0xe8b8d433,
    0x7807c9a2, 0x0f00f934, 0x9609a88e, 0xe10e9818, 0x7f6a0dbb, 0x086d3d2d, 0x91646c97, 0xe6635c01,
    0x6b6b51f4, 0x1c6c6162, 0x856530d8, 0xf262004e, 0x6c0695ed, 0x1b01a57b, 0x8208f4c1, 0xf50fc457,
    0x65b0d9c6, 0x12b7e950, 0x8bbeb8ea, 0xfcb9887c, 0x62dd1ddf, 0x15da2d49, 0x8cd37cf3, 0xfbd44c65,
    0x4db26158, 0x3ab551ce, 0xa3bc0074, 0xd4bb30e2, 0x4adfa541, 0x3dd895d7, 0xa4d1c46d, 0xd3d6f4fb,
    0x4369e96a, 0x346ed9fc, 0xad678846, 0xda60b8d0, 0x44042d73, 0x33031de5, 0xaa0a4c5f, 0xdd0d7cc9,
    0x5005713c, 0x270241aa, 0xbe0b1010, 0xc90c2086, 0x5768b525, 0x206f85b3, 0xb966d409, 0xce61e49f,
    0x5edef90e, 0x29d9c998, 0xb0d09822, 0xc7d7a8b4, 0x59b33d17, 0x2eb40d81, 0xb7bd5c3b, 0xc0ba6cad,
    0xedb88320, 0x9abfb3b6, 0x03b6e20c, 0x74b1d29a, 0xead54739, 0x9dd277af, 0x04db2615, 0x73dc1683,
    0xe3630b12, 0x94643b84, 0x0d6d6a3e, 0x7a6a5aa8, 0xe40ecf0b, 0x9309ff9d, 0x0a00ae27, 0x7d079eb1,
    0xf00f9344, 0x8708a3d2, 0x1e01f268, 0x6906c2fe, 0xf762575d, 0x806567cb, 0x196c3671, 0x6e6b06e7,
    0xfed41b76, 0x89d32be0, 0x10da7a5a, 0x67dd4acc, 0xf9b9df6f, 0x8ebeeff9, 0x17b7be43, 0x60b08ed5,
    0xd6d6a3e8, 0xa1d1937e, 0x38d8c2c4, 0x4fdff252, 0xd1bb67f1, 0xa6bc5767, 0x3fb506dd, 0x48b2364b,
    0xd80d2bda, 0xaf0a1b4c, 0x36034af6, 0x41047a60, 0xdf60efc3, 0xa867df55, 0x316e8eef, 0x4669be79,
    0xcb61b38c, 0xbc66831a, 0x256fd2a0, 0x5268e236, 0xcc0c7795, 0xbb0b4703, 0x220216b9, 0x5505262f,
    0xc5ba3bbe, 0xb2bd0b28, 0x2bb45a92, 0x5cb36a04, 0xc2d7ffa7, 0xb5d0cf31, 0x2cd99e8b, 0x5bdeae1d,
    0x9b64c2b0, 0xec63f226, 0x756aa39c, 0x026d930a, 0x9c0906a9, 0xeb0e363f, 0x72076785, 0x05005713,
    0x95bf4a82, 0xe2b87a14, 0x7bb12bae, 0x0cb61b38, 0x92d28e9b, 0xe5d5be0d, 0x7cdcefb7, 0x0bdbdf21,
    0x86d3d2d4, 0xf1d4e242, 0x68ddb3f8, 0x1fda836e, 0x81be16cd, 0xf6b9265b, 0x6fb077e1, 0x18b74777,
    0x88085ae6, 0xff0f6a70, 0x66063bca, 0x11010b5c, 0x8f659eff, 0xf862ae69, 0x616bffd3, 0x166ccf45,
    0xa00ae278, 0xd70dd2ee, 0x4e048354, 0x3903b3c2, 0xa7672661, 0xd06016f7, 0x4969474d, 0x3e6e77db,
    0xaed16a4a, 0xd9d65adc, 0x40df0b66, 0x37d83bf0, 0xa9bcae53, 0xdebb9ec5, 0x47b2cf7f, 0x30b5ffe9,
    0xbdbdf21c, 0xcabac28a, 0x53b39330, 0x24b4a3a6, 0xbad03605, 0xcdd70693, 0x54de5729, 0x23d967bf,
    0xb3667a2e, 0xc4614ab8, 0x5d681b02, 0x2a6f2b94, 0xb40bbe37, 0xc30c8ea1, 0x5a05df1b, 0x2d02ef8d,
];

/// The entries of the table, one by one.
proof fn lemma_table_values()
    by (bit_vector)
    ensures
        mul_xn(0, 8) == 0x00000000u32,
        mul_xn(1, 8) == 0x77073096u32,
        mul_xn(2, 8) == 0xee0e612cu32,
        mul_xn(3, 8) == 0x990951bau32,
        mul_xn(4, 8) == 0x076dc419u32,
        mul_xn(5, 8) == 0x706af48fu32,
        mul_xn(6, 8) == 0xe963a535u32,
        mul_xn(7, 8) == 0x9e6495a3u32,
        mul_xn(8, 8) == 0x0edb8832u32,
        mul_xn(9, 8) == 0x79dcb8a4u32,
        mul_xn(10, 8) == 0xe0d5e91eu32,
        mul_xn(11, 8) == 0x97d2d988u32,
        mul_xn(12, 8) == 0x09b64c2bu32,
        mul_xn(13, 8) == 0x7eb17cbdu32,
        mul_xn(14, 8) == 0xe7b82d07u32,
        mul_xn(15, 8) == 0x90bf1d91u32,
        mul_xn(16, 8) == 0x1db71064u32,
        mul_xn(17, 8) == 0x6ab020f2u32,
        mul_xn(18, 8) == 0xf3b97148u32,
        mul_xn(19, 8) == 0x84be41deu32,
        mul_xn(20, 8) == 0x1adad47du32,
        mul_xn(21, 8) == 0x6ddde4ebu32,
        mul_xn(22, 8) == 0xf4d4b551u32,
        mul_xn(23, 8) == 0x83d385c7u32,
        mul_xn(24, 8) == 0x136c9856u32,
        mul_xn(25, 8) == 0x646ba8c0u32,
        mul_xn(26, 8) == 0xfd62f97au32,
        mul_xn(27, 8) == 0x8a65c9ecu32,
        mul_xn(28, 8) == 0x14015c4fu32,
        mul_xn(29, 8) == 0x63066cd9u32,
        mul_xn(30, 8) == 0xfa0f3d63u32,
        mul_xn(31, 8) == 0x8d080df5u32,
        mul_xn(32, 8) == 0x3b6e20c8u32,
        mul_xn(33, 8) == 0x4c69105eu32,
        mul_xn(34, 8) == 0xd56041e4u32,
        mul_xn(35, 8) == 0xa2677172u32,
        mul_xn(36, 8) == 0x3c03e4d1u32,
        mul_xn(37, 8) == 0x4b04d447u32,
        mul_xn(38, 8) == 0xd20d85fdu32,
        mul_xn(39, 8) == 0xa50ab56bu32,
        mul_xn(40, 8) == 0x35b5a8fau32,
        mul_xn(41, 8) == 0x42b2986cu32,
        mul_xn(42, 8) == 0xdbbbc9d6u32,
        mul_xn(43, 8) == 0xacbcf940u32,
        mul_xn(44, 8) == 0x32d86ce3u32,
        mul_xn(45, 8) == 0x45df5c75u32,
        mul_xn(46, 8) == 0xdcd60dcfu32,
        mul_xn(47, 8) == 0xabd13d59u32,
        mul_xn(48, 8) == 0x26d930acu32,
        mul_xn(49, 8) == 0x51de003au32,
        mul_xn(50, 8) == 0xc8d75180u32,
        mul_xn(51, 8) == 0xbfd06116u32,
        mul_xn(52, 8) == 0x21b4f4b5u32,
        mul_xn(53, 8) == 0x56b3c423u32,
        mul_xn(54, 8) == 0xcfba9599u32,
        mul_xn(55, 8) == 0xb8bda50fu32,
        mul_xn(56, 8) == 0x2802b89eu32,
        mul_xn(57, 8) == 0x5f058808u32,
        mul_xn(58, 8) == 0xc60cd9b2u32,
        mul_xn(59, 8) == 0xb10be924u32,
        mul_xn(60, 8) == 0x2f6f7c87u32,
        mul_xn(61, 8) == 0x58684c11u32,
        mul_xn(62, 8) == 0xc1611dabu32,
        mul_xn(63, 8) == 0xb6662d3du32,
        mul_xn(64, 8) == 0x76dc4190u32,
        mul_xn(65, 8) == 0x01db7106u32,
        mul_xn(66, 8) == 0x98d220bcu32,
        mul_xn(67, 8) == 0xefd5102au32,
        mul_xn(68, 8) == 0x71b18589u32,
        mul_xn(69, 8) == 0x06b6b51fu32,
        mul_xn(70, 8) == 0x9fbfe4a5u32,
        mul_xn(71, 8) == 0xe8b8d433u32,
        mul_xn(72, 8) == 0x7807c9a2u32,
        mul_xn(73, 8) == 0x0f00f934u32,
        mul_xn(74, 8) == 0x9609a88eu32,
        mul_xn(75, 8) == 0xe10e9818u32,
        mul_xn(76, 8) == 0x7f6a0dbbu32,
        mul_xn(77, 8) == 0x086d3d2du32,
        mul_xn(78, 8) == 0x91646c97u32,
        mul_xn(79, 8) == 0xe6635c01u32,
        mul_xn(80, 8) == 0x6b6b51f4u32,
        mul_xn(81, 8) == 0x1c6c6162u32,
        mul_xn(82, 8) == 0x856530d8u32,
        mul_xn(83, 8) == 0xf262004eu32,
        mul_xn(84, 8) == 0x6c0695edu32,
        mul_xn(85, 8) == 0x1b01a57bu32,
        mul_xn(86, 8) == 0x8208f4c1u32,
        mul_xn(87, 8) == 0xf50fc457u32,
        mul_xn(88, 8) == 0x65b0d9c6u32,
        mul_xn(89, 8) == 0x12b7e950u32,
        mul_xn(90, 8) == 0x8bbeb8eau32,
        mul_xn(91, 8) == 0xfcb9887cu32,
        mul_xn(92, 8) == 0x62dd1ddfu32,
        mul_xn(93, 8) == 0x15da2d49u32,
        mul_xn(94, 8) == 0x8cd37cf3u32,
        mul_xn(95, 8) == 0xfbd44c65u32,
        mul_xn(96, 8) == 0x4db26158u32,
        mul_xn(97, 8) == 0x3ab551ceu32,
        mul_xn(98, 8) == 0xa3bc0074u32,
        mul_xn(99, 8) == 0xd4bb30e2u32,
        mul_xn(100, 8) == 0x4adfa541u32,
        mul_xn(101, 8) == 0x3dd895d7u32,
        mul_xn(102, 8) == 0xa4d1c46du32,
        mul_xn(103, 8) == 0xd3d6f4fbu32,
        mul_xn(104, 8) == 0x4369e96au32,
        mul_xn(105, 8) == 0x346ed9fcu32,
        mul_xn(106, 8) == 0xad678846u32,
        mul_xn(107, 8) == 0xda60b8d0u32,
        mul_xn(108, 8) == 0x44042d73u32,
        mul_xn(109, 8) == 0x33031de5u32,
        mul_xn(110, 8) == 0xaa0a4c5fu32,
        mul_xn(111, 8) == 0xdd0d7cc9u32,
        mul_xn(112, 8) == 0x5005713cu32,
        mul_xn(113, 8) == 0x270241aau32,
        mul_xn(114, 8) == 0xbe0b1010u32,
        mul_xn(115, 8) == 0xc90c2086u32,
        mul_xn(116, 8) == 0x5768b525u32,
        mul_xn(117, 8) == 0x206f85b3u32,
        mul_xn(118, 8) == 0xb966d409u32,
        mul_xn(119, 8) == 0xce61e49fu32,
        mul_xn(120, 8) == 0x5edef90eu32,
        mul_xn(121, 8) == 0x29d9c998u32,
        mul_xn(122, 8) == 0xb0d09822u32,
        mul_xn(123, 8) == 0xc7d7a8b4u32,
        mul_xn(124, 8) == 0x59b33d17u32,
        mul_xn(125, 8) == 0x2eb40d81u32,
        mul_xn(126, 8) == 0xb7bd5c3bu32,
        mul_xn(127, 8) == 0xc0ba6cadu32,
        mul_xn(128, 8) == 0xedb88320u32,
        mul_xn(129, 8) == 0x9abfb3b6u32,
        mul_xn(130, 8) == 0x03b6e20cu32,
        mul_xn(131, 8) == 0x74b1d29au32,
        mul_xn(132, 8) == 0xead54739u32,
        mul_xn(133, 8) == 0x9dd277afu32,
        mul_xn(134, 8) == 0x04db2615u32,
        mul_xn(135, 8) == 0x73dc1683u32,
        mul_xn(136, 8) == 0xe3630b12u32,
        mul_xn(137, 8) == 0x94643b84u32,
        mul_xn(138, 8) == 0x0d6d6a3eu32,
        mul_xn(139, 8) == 0x7a6a5aa8u32,
        mul_xn(140, 8) == 0xe40ecf0bu32,
        mul_xn(141, 8) == 0x9309ff9du32,
        mul_xn(142, 8) == 0x0a00ae27u32,
        mul_xn(143, 8) == 0x7d079eb1u32,
        mul_xn(144, 8) == 0xf00f9344u32,
        mul_xn(145, 8) == 0x8708a3d2u32,
        mul_xn(146, 8) == 0x1e01f268u32,
        mul_xn(147, 8) == 0x6906c2feu32,
        mul_xn(148, 8) == 0xf762575du32,
        mul_xn(149, 8) == 0x806567cbu32,
        mul_xn(150, 8) == 0x196c3671u32,
        mul_xn(151, 8) == 0x6e6b06e7u32,
        mul_xn(152, 8) == 0xfed41b76u32,
        mul_xn(153, 8) == 0x89d32be0u32,
        mul_xn(154, 8) == 0x10da7a5au32,
        mul_xn(155, 8) == 0x67dd4accu32,
        mul_xn(156, 8) == 0xf9b9df6fu32,
        mul_xn(157, 8) == 0x8ebeeff9u32,
        mul_xn(158, 8) == 0x17b7be43u32,
        mul_xn(159, 8) == 0x60b08ed5u32,
        mul_xn(160, 8) == 0xd6d6a3e8u32,
        mul_xn(161, 8) == 0xa1d1937eu32,
        mul_xn(162, 8) == 0x38d8c2c4u32,
        mul_xn(163, 8) == 0x4fdff252u32,
        mul_xn(164, 8) == 0xd1bb67f1u32,
        mul_xn(165, 8) == 0xa6bc5767u32,
        mul_xn(166, 8) == 0x3fb506ddu32,
        mul_xn(167, 8) == 0x48b2364bu32,
        mul_xn(168, 8) == 0xd80d2bdau32,
        mul_xn(169, 8) == 0xaf0a1b4cu32,
        mul_xn(170, 8) == 0x36034af6u32,
        mul_xn(171, 8) == 0x41047a60u32,
        mul_xn(172, 8) == 0xdf60efc3u32,
        mul_xn(173, 8) == 0xa867df55u32,
        mul_xn(174, 8) == 0x316e8eefu32,
        mul_xn(175, 8) == 0x4669be79u32,
        mul_xn(176, 8) == 0xcb61b38cu32,
        mul_xn(177, 8) == 0xbc66831au32,
        mul_xn(178, 8) == 0x256fd2a0u32,
        mul_xn(179, 8) == 0x5268e236u32,
        mul_xn(180, 8) == 0xcc0c7795u32,
        mul_xn(181, 8) == 0xbb0b4703u32,
        mul_xn(182, 8) == 0x220216b9u32,
        mul_xn(183, 8) == 0x5505262fu32,
        mul_xn(184, 8) == 0xc5ba3bbeu32,
        mul_xn(185, 8) == 0xb2bd0b28u32,
        mul_xn(186, 8) == 0x2bb45a92u32,
        mul_xn(187, 8) == 0x5cb36a04u32,
        mul_xn(188, 8) == 0xc2d7ffa7u32,
        mul_xn(189, 8) == 0xb5d0cf31u32,
        mul_xn(190, 8) == 0x2cd99e8bu32,
        mul_xn(191, 8) == 0x5bdeae1du32,
        mul_xn(192, 8) == 0x9b64c2b0u32,
        mul_xn(193, 8) == 0xec63f226u32,
        mul_xn(194, 8) == 0x756aa39cu32,
        mul_xn(195, 8) == 0x026d930au32,
        mul_xn(196, 8) == 0x9c0906a9u32,
        mul_xn(197, 8) == 0xeb0e363fu32,
        mul_xn(198, 8) == 0x72076785u32,
        mul_xn(199, 8) == 0x05005713u32,
        mul_xn(200, 8) == 0x95bf4a82u32,
        mul_xn(201, 8) == 0xe2b87a14u32,
        mul_xn(202, 8) == 0x7bb12baeu32,
        mul_xn(203, 8) == 0x0cb61b38u32,
        mul_xn(204, 8) == 0x92d28e9bu32,
        mul_xn(205, 8) == 0xe5d5be0du32,
        mul_xn(206, 8) == 0x7cdcefb7u32,
        mul_xn(207, 8) == 0x0bdbdf21u32,
        mul_xn(208, 8) == 0x86d3d2d4u32,
        mul_xn(209, 8) == 0xf1d4e242u32,
        mul_xn(210, 8) == 0x68ddb3f8u32,
        mul_xn(211, 8) == 0x1fda836eu32,
        mul_xn(212, 8) == 0x81be16cdu32,
        mul_xn(213, 8) == 0xf6b9265bu32,
        mul_xn(214, 8) == 0x6fb077e1u32,
        mul_xn(215, 8) == 0x18b74777u32,
        mul_xn(216, 8) == 0x88085ae6u32,
        mul_xn(217, 8) == 0xff0f6a70u32,
        mul_xn(218, 8) == 0x66063bcau32,
        mul_xn(219, 8) == 0x11010b5cu32,
        mul_xn(220, 8) == 0x8f659effu32,
        mul_xn(221, 8) == 0xf862ae69u32,
        mul_xn(222, 8) == 0x616bffd3u32,
        mul_xn(223, 8) == 0x166ccf45u32,
        mul_xn(224, 8) == 0xa00ae278u32,
        mul_xn(225, 8) == 0xd70dd2eeu32,
        mul_xn(226, 8) == 0x4e048354u32,
        mul_xn(227, 8) == 0x3903b3c2u32,
        mul_xn(228, 8) == 0xa7672661u32,
        mul_xn(229, 8) == 0xd06016f7u32,
        mul_xn(230, 8) == 0x4969474du32,
        mul_xn(231, 8) == 0x3e6e77dbu32,
        mul_xn(232, 8) == 0xaed16a4au32,
        mul_xn(233, 8) == 0xd9d65adcu32,
        mul_xn(234, 8) == 0x40df0b66u32,
        mul_xn(235, 8) == 0x37d83bf0u32,
        mul_xn(236, 8) == 0xa9bcae53u32,
        mul_xn(237, 8) == 0xdebb9ec5u32,
        mul_xn(238, 8) == 0x47b2cf7fu32,
        mul_xn(239, 8) == 0x30b5ffe9u32,
        mul_xn(240, 8) == 0xbdbdf21cu32,
        mul_xn(241, 8) == 0xcabac28au32,
        mul_xn(242, 8) == 0x53b39330u32,
        mul_xn(243, 8) == 0x24b4a3a6u32,
        mul_xn(244, 8) == 0xbad03605u32,
        mul_xn(245, 8) == 0xcdd70693u32,
        mul_xn(246, 8) == 0x54de5729u32,
        mul_xn(247, 8) == 0x23d967bfu32,
        mul_xn(248, 8) == 0xb3667a2eu32,
        mul_xn(249, 8) == 0xc4614ab8u32,
        mul_xn(250, 8) == 0x5d681b02u32,
        mul_xn(251, 8) == 0x2a6f2b94u32,
        mul_xn(252, 8) == 0xb40bbe37u32,
        mul_xn(253, 8) == 0xc30c8ea1u32,
        mul_xn(254, 8) == 0x5a05df1bu32,
        mul_xn(255, 8) == 0x2d02ef8du32,
{
}

/// What the table holds.
pub proof fn lemma_table_entry(i: int)
    requires
        0 <= i < 256,
    ensures
        CRC32_TABLE[i] == mul_xn(i as u32, 8),
{
    lemma_table_values();
}

/// One table lookup takes the place of eight multiplications by `x`.
pub proof fn lemma_table_step(v: u32)
    by (bit_vector)
    ensures
        mul_xn(v, 8) == mul_xn(v & 0xff, 8) ^ (v >> 8),
        v & 0xff < 256,
{
}

} // verus!
