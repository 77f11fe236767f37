//! The errors of every part of the node.
use vstd::prelude::*;

verus! {

/// Errors while creating or sending a block or its header.
#[derive(Debug, PartialEq, Eq, Structural)]
pub enum BlockChainError {
    ErrorCreatingBlock,
    ErrorSendingBlock,
    ErrorCreatingBlockHeader,
    ErrorSendingBlockHeader,
}

/// Errors while creating a transaction.
#[derive(Debug, PartialEq, Eq, Structural)]
pub enum TransactionError {
    ErrorCreatingTransaction,
    ErrorCreatingTxInFromBytes,
    ErrorCreatingTxOutFromBytes,
    ErrorCreatingOutpointFromBytes,
    ErrorCreatingSignature,
}

/// Errors of the messages, one for creating and one for sending each kind.
#[derive(Debug, PartialEq, Eq, Structural)]
pub enum MessageError {
    ErrorCreatingVersionMessage,
    ErrorSendingVersionMessage,
    ErrorCreatingHeaderMessage,
    ErrorSendingHeaderMessage,
    ErrorCreatingVerAckMessage,
    ErrorSendingVerAckMessage,
    ErrorCreatingGetBlockHeadersMessage,
    ErrorSendingGetBlockHeadersMessage,
    ErrorCreatingBlockHeadersMessage,
    ErrorHeadersBlockMessage,
    ErrorCreatingGetDataMessage,
    ErrorSendingGetDataMessage,
    ErrorCreatingInvMessage,
    ErrorSendingInvMessage,
    ErrorCreatingBlockMessage,
    ErrorSendingBlockMessage,
    ErrorCreatingNotFoundMessage,
    ErrorSendingNotFoundMessage,
    ErrorSendingBlockHeadersMessage,
    ErrorSendingTxMessage,
    ErrorCreatingPingMessage,
    ErrorSendingPingMessage,
    ErrorCreatingPongMessage,
    ErrorSendingPongMessage,
    UnknownMessage,
}

/// Errors of the block downloader.
#[derive(Debug, PartialEq, Eq, Structural)]
pub enum BlockDownloaderError {
    ErrorInvalidCreationSize,
    ErrorSendingToThread,
    ErrorReceivingBlockMessage,
    ErrorSendingMessageBlockDownloader,
    ErrorCreatingWorker,
    ErrorWorkerPanicked,
    ErrorValidatingBlock,
    ErrorReceivingNotFoundMessage,
    BundleNotFound,
    ErrorAllWorkersFailed,
    ErrorCreatingBlockDownloader,
}

/// Errors of the persistence of headers and blocks.
#[derive(Debug, PartialEq, Eq, Structural)]
pub enum NodeDataHandlerError {
    ErrorCreatingNodeDataHandler,
    ErrorOpeningFile,
    ErrorWritingInFile,
    ErrorFlushingWriter,
    ErrorReadingHeaders,
    ErrorReadingBlocks,
    ErrorReadingBytes,
    ErrorSharingData,
}

/// Errors of the configuration.
#[derive(Debug, PartialEq, Eq, Structural)]
pub enum ConfigError {
    ErrorReadingFile,
    ErrorMismatchedFileName,
    ErrorMismatchedQuantityOfParameters,
    ErrorParsingVersion,
    ErrorParsingIP,
    ErrorParsingPort,
    ErrorParsingDate,
    ErrorInvalidDate,
    ErrorParsingIPV6Bool,
    ErrorInvalidParameter,
    ErrorNoExternalAddressGiven,
    ErrorParameterNotFound,
}

/// Errors of the node.
#[derive(Debug, PartialEq, Eq, Structural)]
pub enum NodeError {
    ErrorConnectingToPeer,
    ErrorSendingMessageInHandshake,
    ErrorReceivingMessageInHandshake,
    ErrorInterpretingMessageCommandName,
    ErrorSendingMessageInIBD,
    ErrorIteratingStreams,
    ErrorReceivingHeadersMessageInIBD,
    ErrorReceivingHeadersMessageHeaderInIBD,
    ErrorCreatingBlockDownloader,
    ErrorDownloadingBlockBundle,
    ErrorCreatingNode,
    ErrorSavingDataToDisk,
    ErrorLoadingDataFromDisk,
    ErrorRecevingBroadcastedInventory,
    ErrorReceivingBroadcastedBlock,
    ErrorValidatingBlock,
    ErrorSharingReference,
    ErrorGettingUtxo,
    ErrorGettingTx,
    ErrorSendingTransaction,
    ErrorNotEnoughSatoshis,
    ErrorFindingBlock,
    ErrorSendingThroughChannel,
    ErrorJoiningThread,
    ErrorPeerTimeout,
    ErrorReceivingMessageHeader,
    DoubleHeader,
    ErrorDisconectedFromBlockchain,
    ErrorMessage(MessageError),
}

/// Errors of the communication with peers.
#[derive(Debug, PartialEq, Eq, Structural)]
pub enum PeerComunicatorError {
    ErrorReceivingMessages,
    ErrorWorkerPanicked,
    ErrorFinishingReceivingMessages,
    ErrorCreatingWorker,
    ErrorCantReceiveNewPeerConections,
    ErrorSendingMessage,
    ErrorPropagating,
    LostConnectionToManager,
}

/// Errors of the worker threads.
#[derive(Debug, PartialEq, Eq, Structural)]
pub enum WorkerError {
    ErrorWorkerPanicked,
    ErrorComunicatingBetweenWorkers,
}

/// Errors of the wallet.
#[derive(Debug, PartialEq, Eq, Structural)]
pub enum WalletError {
    ErrorHandlingPrivKey,
    ErrorHandlingAddress,
    ErrorSendingTx,
    ErrorCreatingTx,
    ErrorNotEnoughSatoshis,
    ErrorSendingToUI,
    ErrorSettingWallet,
    ErrorFindingBlock,
    ErrorGettingBlockInfo,
    ErrorObtainingTxProof,
    ErrorReceivingFromUI,
    ErrorUpdatingWallet,
    InvalidAmount,
    ErrorDisconectedFromBlockchain,
}

/// Errors of the log.
#[derive(Debug, PartialEq, Eq, Structural)]
pub enum LoggerError {
    ErrorOpeningFile,
    ErrorSendingMessage,
}

} // verus!
