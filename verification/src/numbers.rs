//! Numbers that are agreed with others: with kernels, with targets and hosts, and
//! with what is on disks already.
use crate::drive::iscsi_dev;
use crate::drive::nbd;
use crate::drive::nvme;
use crate::drive::nvme_pdu;
use crate::drive::nvmeof_dev;
use crate::drive::pool;
use crate::drive::slab;
use crate::drive::ublk;
use crate::drive::ublk_abi;
use crate::drive::uring_channel;
use crate::fs::ext4;
use crate::fs::ext4_free;
use crate::fs::xfs;
use vstd::prelude::*;

verus! {

/// Network block devices know their commands, options and marks by these
/// numbers.
pub proof fn the_numbers_of_nbd()
    ensures
        nbd::NBD_MAGIC == 0x4e42444d41474943,
        nbd::NBD_OPTS_MAGIC == 0x49484156454F5054,
        nbd::NBD_REPLY_MAGIC == 0x67446698,
        nbd::NBD_REQUEST_MAGIC == 0x25609513,
        nbd::NBD_SIMPLE_REPLY_MAGIC == 0x67446698,
        nbd::NBD_OPT_EXPORT_NAME == 1,
        nbd::NBD_OPT_ABORT == 2,
        nbd::NBD_OPT_GO == 7,
        nbd::NBD_REP_ACK == 1,
        nbd::NBD_REP_INFO == 3,
        nbd::NBD_REP_ERR_UNSUP == 0x80000001,
        nbd::NBD_INFO_EXPORT == 0,
        nbd::NBD_CMD_READ == 0,
        nbd::NBD_CMD_WRITE == 1,
        nbd::NBD_CMD_DISC == 2,
        nbd::NBD_CMD_FLUSH == 3,
        nbd::NBD_CMD_TRIM == 4,
        nbd::NBD_OK == 0,
        nbd::NBD_EIO == 5,
        nbd::NBD_EINVAL == 22,
        nbd::EXPORT_FLAGS == 37,
        nbd::NBD_FLAG_FIXED_NEWSTYLE == 1,
{
}

/// iSCSI knows its PDUs and stages by these numbers.
pub proof fn the_numbers_of_iscsi()
    ensures
        iscsi_dev::OP_NOP_OUT == 0x40,
        iscsi_dev::OP_SCSI_COMMAND == 0x01,
        iscsi_dev::OP_LOGIN_REQUEST == 0x43,
        iscsi_dev::OP_LOGOUT_REQUEST == 0x46,
        iscsi_dev::OP_NOP_IN == 0x20,
        iscsi_dev::OP_SCSI_RESPONSE == 0x21,
        iscsi_dev::OP_LOGIN_RESPONSE == 0x23,
        iscsi_dev::OP_DATA_IN == 0x25,
        iscsi_dev::OP_LOGOUT_RESPONSE == 0x26,
        iscsi_dev::STAGE_SECURITY == 0,
        iscsi_dev::STAGE_OPERATIONAL == 1,
        iscsi_dev::STAGE_FULL_FEATURE == 3,
        iscsi_dev::NO_TAG == 0xffff_ffff,
        iscsi_dev::MAX_TRANSFER == 65536,
{
}

/// NVMe controllers know their commands and queues by these numbers.
pub proof fn the_numbers_of_nvme()
    ensures
        nvme::NVME_OPC_READ == 0x02,
        nvme::NVME_OPC_WRITE == 0x01,
        nvme::NVME_OPC_FLUSH == 0x00,
        nvme::NVME_OPC_DSM == 0x09,
        nvme::NVME_ADMIN_IDENTIFY == 0x06,
        nvme::NVME_ADMIN_CREATE_IO_CQ == 0x05,
        nvme::NVME_ADMIN_CREATE_IO_SQ == 0x01,
        nvme::SUBMISSION_LEN == 64,
        nvme::COMPLETION_LEN == 16,
        nvme::ADMIN_DEPTH == 32,
        nvme::MAX_TRANSFER == 131072,
        nvme::READY_TRIES == 1000,
{
}

/// NVMe over TCP knows its PDUs by these numbers.
pub proof fn the_numbers_of_nvme_over_tcp()
    ensures
        nvmeof_dev::MAX_CHUNK == 131072,
        nvmeof_dev::PDU_IC_REQ == 0x00,
        nvmeof_dev::PDU_IC_RESP == 0x01,
        nvmeof_dev::PDU_CAPSULE_CMD == 0x04,
        nvmeof_dev::PDU_CAPSULE_RESP == 0x05,
        nvmeof_dev::PDU_C2H_DATA == 0x07,
{
}

/// The parts of a PDU have these sizes.
pub proof fn the_sizes_of_pdus()
    ensures
        nvme_pdu::HEADER_BYTES == 8,
        nvme_pdu::DATA_HEAD_BYTES == 16,
        nvme_pdu::COMPLETION_BYTES == 16,
        nvme_pdu::BARE_COMPLETION == 24,
{
}

/// The kernel knows the commands, flags and states of its block devices in user
/// space by these numbers.
pub proof fn the_numbers_of_ublk()
    ensures
        ublk_abi::CTRL_CMD_LEN == 32,
        ublk_abi::DEV_INFO_LEN == 64,
        ublk_abi::PARAMS_LEN == 64,
        ublk_abi::IO_CMD_LEN == 16,
        ublk_abi::IO_DESC_LEN == 24,
        ublk_abi::PAYLOAD_LEN == 80,
        ublk_abi::UBLK_U_CMD_GET_DEV_INFO == 0x8020_7502,
        ublk_abi::UBLK_U_CMD_ADD_DEV == 0xC020_7504,
        ublk_abi::UBLK_U_CMD_DEL_DEV == 0xC020_7505,
        ublk_abi::UBLK_U_CMD_START_DEV == 0xC020_7506,
        ublk_abi::UBLK_U_CMD_STOP_DEV == 0xC020_7507,
        ublk_abi::UBLK_U_CMD_SET_PARAMS == 0xC020_7508,
        ublk_abi::UBLK_U_CMD_GET_FEATURES == 0x8020_7513,
        ublk_abi::UBLK_U_CMD_START_USER_RECOVERY == 0xC020_7510,
        ublk_abi::UBLK_U_CMD_END_USER_RECOVERY == 0xC020_7511,
        ublk_abi::UBLK_U_CMD_UPDATE_SIZE == 0xC020_7515,
        ublk_abi::UBLK_U_IO_FETCH_REQ == 0xC010_7520,
        ublk_abi::UBLK_U_IO_COMMIT_AND_FETCH_REQ == 0xC010_7521,
        ublk_abi::UBLK_IO_OP_READ == 0,
        ublk_abi::UBLK_IO_OP_WRITE == 1,
        ublk_abi::UBLK_IO_OP_FLUSH == 2,
        ublk_abi::UBLK_IO_OP_DISCARD == 3,
        ublk_abi::UBLK_IO_OP_WRITE_ZEROES == 5,
        ublk_abi::UBLK_PARAM_TYPE_BASIC == 1,
        ublk_abi::UBLK_PARAM_TYPE_DISCARD == 2,
        ublk_abi::UBLK_F_URING_CMD_COMP_IN_TASK == 0x2,
        ublk_abi::UBLK_F_USER_RECOVERY == 0x8,
        ublk_abi::UBLK_F_USER_RECOVERY_REISSUE == 0x10,
        ublk_abi::UBLK_F_CMD_IOCTL_ENCODE == 0x40,
        ublk_abi::UBLK_F_UPDATE_SIZE == 0x400,
        ublk_abi::UBLK_S_DEV_DEAD == 0,
        ublk_abi::UBLK_S_DEV_LIVE == 1,
        ublk_abi::UBLK_S_DEV_QUIESCED == 2,
        ublk_abi::DEFAULT_MAX_IO_BYTES == 524288,
        ublk_abi::DEFAULT_QUEUE_DEPTH == 128,
{
}

/// A server waits this long, and knows these errors.
pub proof fn the_patience_of_a_server()
    ensures
        ublk::QUIESCE_TIMEOUT_MS == 30000,
        ublk::POLL_MS == 50,
        ublk::OPEN_RETRY_MS == 100,
        ublk::OPEN_RETRIES == 10,
        ublk::KILL_GRACE_MS == 500,
        ublk::STAND_DOWN_POLL_MS == 20,
        ublk::EINTR == 4,
        ublk::EIO == 5,
        ublk::ENODEV == 19,
        ublk::ETIME == 62,
        ublk::ENOTSUP == 95,
{
}

/// Client and server know their shared memory by these numbers.
pub proof fn the_numbers_of_a_ring()
    ensures
        uring_channel::RING_MAGIC == 0x55524E47,
        uring_channel::RING_VERSION == 1,
        uring_channel::DEFAULT_QUEUE_DEPTH == 64,
        uring_channel::DEFAULT_BUF_SIZE == 1048576,
        uring_channel::OP_READ == 0,
        uring_channel::OP_WRITE == 1,
        uring_channel::OP_FLUSH == 2,
        uring_channel::OP_DISCARD == 3,
        uring_channel::HEADER_LEN == 4096,
        uring_channel::COMMAND_LEN == 64,
        uring_channel::COMPLETION_LEN == 32,
{
}

/// A slab is known by its mark and these sizes.
pub proof fn the_numbers_of_slabs()
    ensures
        slab::SLAB_MAGIC@ == seq![83u8, 84, 82, 77, 83, 76, 65, 66],
        slab::SLAB_VERSION == 1,
        slab::DEFAULT_SLOT_SIZE == 1048576,
        slab::HEADER_SIZE == 4096,
        slab::SLOT_ENTRY_SIZE == 64,
{
    assert(slab::SLAB_MAGIC@ =~= seq![83u8, 84, 82, 77, 83, 76, 65, 66]);
}

/// A pool is known by its mark and these sizes.
pub proof fn the_numbers_of_pools()
    ensures
        pool::POOL_MAGIC@ == seq![83u8, 84, 82, 77, 80, 79, 79, 76],
        pool::POOL_VERSION == 1,
        pool::POOL_DATA_OFFSET == 1048576,
        pool::POOL_ALIGNMENT == 1048576,
        pool::MAX_VDRIVES == 256,
        pool::VDRIVE_TABLE_OFFSET == 0x200,
        pool::VDRIVE_ENTRY_SIZE == 128,
{
    assert(pool::POOL_MAGIC@ =~= seq![83u8, 84, 82, 77, 80, 79, 79, 76]);
}

/// An XFS superblock has its fields at these places.
pub proof fn the_places_of_xfs()
    ensures
        xfs::MAGIC@ == seq![0x58u8, 0x46, 0x53, 0x42],
        xfs::MIN_BYTES == 300000000,
        xfs::LABEL_LEN == 12,
        xfs::BLOCKSIZE == 4,
        xfs::DBLOCKS == 8,
        xfs::UUID == 32,
        xfs::AGBLOCKS == 84,
        xfs::AGCOUNT == 88,
        xfs::LOGBLOCKS == 96,
        xfs::VERSIONNUM == 100,
        xfs::SECTSIZE == 102,
        xfs::FNAME == 108,
        xfs::INPROGRESS == 126,
        xfs::FEATURES_INCOMPAT == 216,
        xfs::CRC == 224,
        xfs::META_UUID == 248,
        xfs::V5 == 5,
        xfs::IN_META_UUID == 0x4,
        xfs::IN_NEEDSREPAIR == 0x10,
{
    assert(xfs::MAGIC@ =~= seq![0x58u8, 0x46, 0x53, 0x42]);
}

/// An ext superblock has these flags.
pub proof fn the_flags_of_ext()
    ensures
        ext4::JOURNAL_FLOOR_BYTES == 8388608,
        ext4::COMPAT_HAS_JOURNAL == 0x0004,
        ext4::INCOMPAT_RECOVER == 0x0004,
        ext4::INCOMPAT_64BIT == 0x0080,
        ext4::INCOMPAT_CSUM_SEED == 0x2000,
        ext4::RO_COMPAT_METADATA_CSUM == 0x0400,
        ext4::VALID_FS == 0x0001,
        ext4::ERROR_FS == 0x0002,
        ext4::ORPHAN_FS == 0x0004,
        ext4::LABEL_LEN == 16,
{
}

/// An ext filesystem keeps its superblock here, with this magic and these
/// flags.
pub proof fn the_places_of_ext()
    ensures
        ext4_free::SUPERBLOCK_OFFSET == 1024,
        ext4_free::SUPERBLOCK_LEN == 1024,
        ext4_free::EXT4_MAGIC == 0xEF53,
        ext4_free::INCOMPAT_RECOVER == 0x0004,
        ext4_free::INCOMPAT_META_BG == 0x0010,
        ext4_free::INCOMPAT_64BIT == 0x0080,
        ext4_free::BG_BLOCK_UNINIT == 0x0002,
        ext4_free::STATE_CLEANLY_UNMOUNTED == 0x0001,
{
}

} // verus!
