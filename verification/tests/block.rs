use voxel_engine::block::{
    subdiv_read_mb, subdiv_write_mb, BlockVariantId, BlockVoxel, CvoBlock, FullBlock, MbWriteBehaviour, Microblock,
    SubdivReadAccessOutput, SubdividedBlock,
};
use voxel_engine::math::uvec3;

const VOID: u32 = 0;
const FULL: u32 = 1;
const SUBDIV: u32 = 2;

#[test]
fn test_write_read_mb_ignore() {
    let full_block = FullBlock::new(BlockVariantId::new(FULL));
    let full_subdividable_block = FullBlock::new(BlockVariantId::new(SUBDIV));
    let microblock = Microblock::new(BlockVariantId::new(VOID));
    let default = Microblock::new(BlockVariantId::new(VOID));

    // writing a microblock into a non-subdividable full block is ignored
    let written = subdiv_write_mb(
        &CvoBlock::Full(full_block),
        false,
        uvec3(0, 0, 0),
        microblock,
        MbWriteBehaviour::Ignore,
        default,
    );
    assert!(written.is_none());
    assert_eq!(
        SubdivReadAccessOutput::Full(FullBlock::new(BlockVariantId::new(FULL))),
        subdiv_read_mb(&CvoBlock::Full(full_block), uvec3(0, 0, 0))
    );

    // writing into a subdividable full block subdivides it
    let written = subdiv_write_mb(
        &CvoBlock::Full(full_subdividable_block),
        true,
        uvec3(0, 0, 0),
        microblock,
        MbWriteBehaviour::Ignore,
        default,
    );
    let subdiv = match written {
        Some(BlockVoxel::Subdivided(s)) => s,
        _ => panic!("expected block to be subdivided"),
    };

    assert_eq!(Microblock::new(BlockVariantId::new(VOID)), subdiv.get(uvec3(0, 0, 0)).unwrap());
    assert_eq!(Microblock::new(BlockVariantId::new(SUBDIV)), subdiv.get(uvec3(0, 1, 0)).unwrap());
    assert_eq!(Microblock::new(BlockVariantId::new(SUBDIV)), subdiv.get(uvec3(0, 0, 1)).unwrap());
    assert_eq!(Microblock::new(BlockVariantId::new(SUBDIV)), subdiv.get(uvec3(1, 0, 0)).unwrap());
}

#[test]
fn replace_behaviour_fills_with_default() {
    let written = subdiv_write_mb(
        &CvoBlock::Full(FullBlock::new(BlockVariantId::new(FULL))),
        false,
        uvec3(3, 3, 3),
        Microblock::new(BlockVariantId::new(9)),
        MbWriteBehaviour::Replace,
        Microblock::new(BlockVariantId::new(5)),
    );
    let subdiv = match written {
        Some(BlockVoxel::Subdivided(s)) => s,
        _ => panic!("expected block to be subdivided"),
    };
    assert_eq!(Microblock::new(BlockVariantId::new(9)), subdiv.get(uvec3(3, 3, 3)).unwrap());
    assert_eq!(Microblock::new(BlockVariantId::new(5)), subdiv.get(uvec3(0, 0, 0)).unwrap());
    assert_eq!(
        SubdivReadAccessOutput::Micro(Microblock::new(BlockVariantId::new(9))),
        subdiv_read_mb(&CvoBlock::Subdivided(&subdiv), uvec3(3, 3, 3))
    );
}

#[test]
fn subdivided_block_set_get_and_coalesce() {
    let mut s = SubdividedBlock::new(Microblock::new(BlockVariantId::new(4)));
    assert!(s.is_equichromatic());
    assert_eq!(Some(FullBlock::new(BlockVariantId::new(4))), s.coalesce());
    assert!(s.get(uvec3(4, 0, 0)).is_err());
    let old = s.set(uvec3(1, 2, 3), Microblock::new(BlockVariantId::new(6))).unwrap();
    assert_eq!(Microblock::new(BlockVariantId::new(4)), old);
    assert_eq!(Microblock::new(BlockVariantId::new(6)), s.get(uvec3(1, 2, 3)).unwrap());
    assert!(!s.is_equichromatic());
    assert_eq!(None, s.coalesce());
    assert!(s.set(uvec3(0, 4, 0), Microblock::new(BlockVariantId::new(6))).is_err());
}

#[test]
fn block_voxel_microblock_reads() {
    let full = CvoBlock::Full(FullBlock::new(BlockVariantId::new(3)));
    assert_eq!(Microblock::new(BlockVariantId::new(3)), full.get_microblock(uvec3(2, 2, 2)).unwrap());
    assert!(full.get_microblock(uvec3(2, 2, 4)).is_err());
}
