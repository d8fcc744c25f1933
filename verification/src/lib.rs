//! Verified reactive boundary planes: ingress, egress, durable projections,
//! topics, work queues and keyed families, each split into a graph-agnostic core
//! and the reactive cells built on it.

pub mod async_boundary_ingress;
pub mod async_egress;
pub mod async_ingress;
pub mod async_latest_durable_projection;
pub mod async_queue;
pub mod async_reactive_family;
pub mod async_topic;
pub mod async_work_queue;
pub mod backoff;
pub mod barrier_laws;
pub mod boundary_convergence;
pub mod boundary_ingress;
pub mod boundary_ingress_core;
pub mod boundary_laws;
pub mod boundary_lifecycle;
pub mod boundary_model;
pub mod boundary_outcomes;
pub mod boundary_shell;
pub mod boundary_shell_laws;
pub mod boundary_shell_outcomes;
pub mod boundary_types;
pub mod cell_outcomes;
pub mod egress;
pub mod egress_core;
pub mod egress_histories;
pub mod egress_laws;
pub mod egress_line;
pub mod egress_line_laws;
pub mod egress_line_outcomes;
pub mod egress_outcomes;
pub mod egress_shell;
pub mod egress_shell_laws;
pub mod filtering;
pub mod graph;
pub mod graph_laws;
pub mod ingress;
pub mod ingress_convergence;
pub mod ingress_core;
pub mod ingress_laws;
pub mod ingress_lifecycle;
pub mod ingress_model;
pub mod ingress_outcomes;
pub mod ingress_shell;
pub mod ingress_shell_laws;
pub mod ingress_shell_outcomes;
pub mod ingress_types;
pub mod ingress_vocabulary_laws;
pub mod interop_laws;
pub mod interop_peer;
pub mod interop_request;
pub mod json_line;
pub mod keyed_order;
pub mod latest_durable_desires;
pub mod latest_durable_laws;
pub mod latest_durable_projection;
pub mod latest_durable_projection_core;
pub mod latest_durable_shell;
pub mod merge;
pub mod order_laws;
pub mod protobuf;
pub mod protobuf_laws;
pub mod queue;
pub mod queue_laws;
pub mod queue_shell;
pub mod reactive;
pub mod reactive_family;
pub mod reactive_family_laws;
pub mod reactive_family_outcomes;
pub mod relay;
pub mod sorted;
pub mod sorted_set;
pub mod state_table;
pub mod state_table_laws;
pub mod stdlib;
pub mod table;
pub mod thread_safe_boundary_ingress;
pub mod thread_safe_egress;
pub mod thread_safe_ingress;
pub mod thread_safe_latest_durable_projection;
pub mod thread_safe_queue;
pub mod thread_safe_reactive_family;
pub mod thread_safe_sem_tree;
pub mod thread_safe_sem_tree_laws;
pub mod thread_safe_source_tree;
pub mod thread_safe_source_tree_laws;
pub mod thread_safe_topic;
pub mod thread_safe_work_queue;
pub mod topic_core;
pub mod topic_laws;
pub mod topic_outcomes;
pub mod topic_shell;
pub mod topic_shell_laws;
pub mod tree_outcomes;
pub mod value;
pub mod work_queue;
pub mod work_queue_core;
pub mod work_queue_laws;
pub mod work_queue_leases;
pub mod work_queue_shell;
